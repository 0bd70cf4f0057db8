//! Structured demand: the lattice of how deeply a value is forced, demand
//! maps over variables, and the per-function demand rows codegen reads.
//!
//! A `Demand` is always at least WHNF (`Head`); `Fields` additionally
//! forces tuple fields, `Elems` the whole list spine and every element.
//! Absence of a demand means LAZY. `subsumes` is the lattice order, `join`
//! combines two demands that occur on the same run, `meet` keeps what two
//! alternative runs share; the laws below state the order's and the
//! operations' algebra.

use vstd::prelude::*;
use crate::text::str_eq;
use crate::types::Ty;

verus! {

broadcast use vstd::string::group_string_axioms;

/// Structured demand on a single value.
pub enum Demand {
    /// Forced to WHNF only.
    Head,
    /// Forced to WHNF, and each tuple field forced with the given demand
    /// (`None` = that field stays lazy).
    Fields(Vec<Option<Demand>>),
    /// The full list spine is forced, and every element with the demand.
    Elems(Box<Demand>),
}

/// The mathematical demand.
pub enum DM {
    Head,
    Fields(Seq<Option<DM>>),
    Elems(Box<DM>),
}

pub open spec fn demand_model(d: Demand) -> DM
    decreases d,
{
    match d {
        Demand::Head => DM::Head,
        Demand::Fields(fs) => DM::Fields(Seq::new(fs@.len(), |i: int|
            if 0 <= i < fs@.len() {
                match fs@[i] {
                    Some(x) => Some(demand_model(x)),
                    None => None,
                }
            } else {
                None
            })),
        Demand::Elems(b) => DM::Elems(Box::new(demand_model(*b))),
    }
}

pub open spec fn opt_model(o: Option<Demand>) -> Option<DM> {
    match o {
        Some(x) => Some(demand_model(x)),
        None => None,
    }
}

/// The models of a demand row.
pub open spec fn row_model(r: Seq<Option<Demand>>) -> Seq<Option<DM>> {
    r.map_values(|o: Option<Demand>| opt_model(o))
}

/// A field list's model is the row model of its fields.
pub proof fn lemma_fields_model(fs: Vec<Option<Demand>>)
    ensures
        Demand::Fields(fs)@ == DM::Fields(row_model(fs@)),
{
    assert(Demand::Fields(fs)@->Fields_0 =~= row_model(fs@));
}

impl View for Demand {
    type V = DM;

    open spec fn view(&self) -> DM {
        demand_model(*self)
    }
}

/// The `i`th field of a field list, absent beyond its end.
pub open spec fn field(x: Seq<Option<DM>>, i: int) -> Option<DM> {
    if 0 <= i < x.len() { x[i] } else { None }
}

/// `a` subsumes `b`: any run satisfying `a` also satisfies `b`. Every
/// demand subsumes `Head`.
pub open spec fn subsumes(a: DM, b: DM) -> bool
    decreases b,
{
    match (a, b) {
        (_, DM::Head) => true,
        (DM::Fields(x), DM::Fields(y)) => forall|i: int|
            0 <= i < y.len() ==> match #[trigger] y[i] {
                None => true,
                Some(db) => match field(x, i) {
                    Some(da) => subsumes(da, db),
                    None => false,
                },
            },
        (DM::Elems(x), DM::Elems(y)) => subsumes(*x, *y),
        _ => false,
    }
}

/// Join: both demands occur on the same run. A shape mismatch (which
/// well-typed programs do not produce) degrades to `Head`.
pub open spec fn join(a: DM, b: DM) -> DM
    decreases a, b,
{
    match (a, b) {
        (DM::Head, d) => d,
        (d, DM::Head) => d,
        (DM::Fields(x), DM::Fields(y)) => DM::Fields(Seq::new(
            if x.len() >= y.len() { x.len() } else { y.len() },
            |i: int| join_at(x, y, i),
        )),
        (DM::Elems(x), DM::Elems(y)) => DM::Elems(Box::new(join(*x, *y))),
        _ => DM::Head,
    }
}

/// Field `i` of the join of two field lists.
pub open spec fn join_at(x: Seq<Option<DM>>, y: Seq<Option<DM>>, i: int) -> Option<DM>
    decreases x, y,
{
    if 0 <= i < x.len() && 0 <= i < y.len() && x[i] is Some && y[i] is Some {
        Some(join(x[i]->0, y[i]->0))
    } else if 0 <= i < x.len() && x[i] is Some {
        x[i]
    } else if 0 <= i < y.len() {
        y[i]
    } else {
        None
    }
}

/// Field `i` of the meet of two field lists.
pub open spec fn meet_at(x: Seq<Option<DM>>, y: Seq<Option<DM>>, i: int) -> Option<DM>
    decreases x, y,
{
    if 0 <= i < x.len() && 0 <= i < y.len() && x[i] is Some && y[i] is Some {
        Some(meet(x[i]->0, y[i]->0))
    } else {
        None
    }
}

/// Meet: only one of the two demands is guaranteed — keep what both
/// include.
pub open spec fn meet(a: DM, b: DM) -> DM
    decreases a, b,
{
    match (a, b) {
        (DM::Head, _) => DM::Head,
        (_, DM::Head) => DM::Head,
        (DM::Fields(x), DM::Fields(y)) => DM::Fields(Seq::new(
            if x.len() >= y.len() { x.len() } else { y.len() },
            |i: int| meet_at(x, y, i),
        )),
        (DM::Elems(x), DM::Elems(y)) => DM::Elems(Box::new(meet(*x, *y))),
        _ => DM::Head,
    }
}

/// Two demands of the same shape (where both are more than `Head`).
pub open spec fn compatible(a: DM, b: DM) -> bool
    decreases a, b,
{
    match (a, b) {
        (DM::Head, _) => true,
        (_, DM::Head) => true,
        (DM::Fields(x), DM::Fields(y)) => forall|i: int|
            0 <= i < x.len() && 0 <= i < y.len() && x[i] is Some && y[i] is Some ==> compatible(
                #[trigger] x[i]->0,
                y[i]->0,
            ),
        (DM::Elems(x), DM::Elems(y)) => compatible(*x, *y),
        _ => false,
    }
}


// ---- laws of the lattice ----

/// Every demand subsumes itself.
pub proof fn lemma_subsumes_refl(a: DM)
    ensures
        subsumes(a, a),
    decreases a,
{
    match a {
        DM::Head => {},
        DM::Fields(x) => {
            assert forall|i: int| 0 <= i < x.len() implies match #[trigger] x[i] {
                None => true,
                Some(db) => match field(x, i) {
                    Some(da) => subsumes(da, db),
                    None => false,
                },
            } by {
                if let Some(d) = x[i] {
                    lemma_subsumes_refl(d);
                }
            }
        },
        DM::Elems(x) => {
            lemma_subsumes_refl(*x);
        },
    }
}

/// Every demand subsumes `Head`.
pub proof fn lemma_subsumes_head(a: DM)
    ensures
        subsumes(a, DM::Head),
{
}

/// Subsumption is transitive.
pub proof fn lemma_subsumes_trans(a: DM, b: DM, c: DM)
    requires
        subsumes(a, b),
        subsumes(b, c),
    ensures
        subsumes(a, c),
    decreases c,
{
    match (a, b, c) {
        (_, _, DM::Head) => {},
        (DM::Fields(x), DM::Fields(y), DM::Fields(z)) => {
            assert forall|i: int| 0 <= i < z.len() implies match #[trigger] z[i] {
                None => true,
                Some(dc) => match field(x, i) {
                    Some(da) => subsumes(da, dc),
                    None => false,
                },
            } by {
                if let Some(dc) = z[i] {
                    assert(match z[i] {
                        None => true,
                        Some(db) => match field(y, i) {
                            Some(da) => subsumes(da, db),
                            None => false,
                        },
                    });
                    let db = field(y, i)->0;
                    assert(match y[i] {
                        None => true,
                        Some(db) => match field(x, i) {
                            Some(da) => subsumes(da, db),
                            None => false,
                        },
                    });
                    let da = field(x, i)->0;
                    lemma_subsumes_trans(da, db, dc);
                }
            }
        },
        (DM::Elems(x), DM::Elems(y), DM::Elems(z)) => {
            lemma_subsumes_trans(*x, *y, *z);
        },
        _ => {},
    }
}

/// The meet is below both arguments.
pub proof fn lemma_meet_lower(a: DM, b: DM)
    ensures
        subsumes(a, meet(a, b)),
        subsumes(b, meet(a, b)),
    decreases a, b,
{
    match (a, b) {
        (DM::Head, _) => {},
        (_, DM::Head) => {},
        (DM::Fields(x), DM::Fields(y)) => {
            let m = meet(a, b);
            let z = m->Fields_0;
            assert forall|i: int| 0 <= i < z.len() implies match #[trigger] z[i] {
                None => true,
                Some(dc) => match field(x, i) {
                    Some(da) => subsumes(da, dc),
                    None => false,
                },
            } by {
                assert(z[i] == meet_at(x, y, i));
                if 0 <= i < x.len() && 0 <= i < y.len() && x[i] is Some && y[i] is Some {
                    lemma_meet_lower(x[i]->0, y[i]->0);
                }
            }
            assert forall|i: int| 0 <= i < z.len() implies match #[trigger] z[i] {
                None => true,
                Some(dc) => match field(y, i) {
                    Some(da) => subsumes(da, dc),
                    None => false,
                },
            } by {
                assert(z[i] == meet_at(x, y, i));
                if 0 <= i < x.len() && 0 <= i < y.len() && x[i] is Some && y[i] is Some {
                    lemma_meet_lower(x[i]->0, y[i]->0);
                }
            }
        },
        (DM::Elems(x), DM::Elems(y)) => {
            lemma_meet_lower(*x, *y);
        },
        _ => {},
    }
}

/// For demands of the same shape, the join is above both arguments.
pub proof fn lemma_join_upper(a: DM, b: DM)
    requires
        compatible(a, b),
    ensures
        subsumes(join(a, b), a),
        subsumes(join(a, b), b),
    decreases a, b,
{
    match (a, b) {
        (DM::Head, _) => {
            lemma_subsumes_refl(b);
        },
        (_, DM::Head) => {
            lemma_subsumes_refl(a);
        },
        (DM::Fields(x), DM::Fields(y)) => {
            let z = join(a, b)->Fields_0;
            assert forall|i: int| 0 <= i < x.len() implies match #[trigger] x[i] {
                None => true,
                Some(dc) => match field(z, i) {
                    Some(da) => subsumes(da, dc),
                    None => false,
                },
            } by {
                assert(z[i] == join_at(x, y, i));
                if let Some(d) = x[i] {
                    if 0 <= i < y.len() && y[i] is Some {
                        lemma_join_upper(d, y[i]->0);
                    } else {
                        lemma_subsumes_refl(d);
                    }
                }
            }
            assert forall|i: int| 0 <= i < y.len() implies match #[trigger] y[i] {
                None => true,
                Some(dc) => match field(z, i) {
                    Some(da) => subsumes(da, dc),
                    None => false,
                },
            } by {
                assert(z[i] == join_at(x, y, i));
                if let Some(d) = y[i] {
                    if 0 <= i < x.len() && x[i] is Some {
                        lemma_join_upper(x[i]->0, d);
                    } else {
                        lemma_subsumes_refl(d);
                    }
                }
            }
        },
        (DM::Elems(x), DM::Elems(y)) => {
            lemma_join_upper(*x, *y);
        },
        _ => {},
    }
}

/// Join does not depend on argument order.
pub proof fn lemma_join_comm(a: DM, b: DM)
    ensures
        join(a, b) == join(b, a),
    decreases a, b,
{
    match (a, b) {
        (DM::Fields(x), DM::Fields(y)) => {
            assert forall|i: int| 0 <= i < x.len() && 0 <= i < y.len() && x[i] is Some && y[i] is Some
                implies join(#[trigger] x[i]->0, y[i]->0) == join(y[i]->0, x[i]->0) by {
                lemma_join_comm(x[i]->0, y[i]->0);
            }
            assert forall|i: int| 0 <= i < (join(a, b)->Fields_0).len() implies join_at(x, y, i) == join_at(y, x, i) by {
                if 0 <= i < x.len() && 0 <= i < y.len() && x[i] is Some && y[i] is Some {
                    lemma_join_comm(x[i]->0, y[i]->0);
                }
            }
            let z1 = join(a, b)->Fields_0;
            let z2 = join(b, a)->Fields_0;
            assert(z1.len() == z2.len());
            assert forall|i: int| 0 <= i < z1.len() implies z1[i] == z2[i] by {
                assert(z1[i] == join_at(x, y, i));
                assert(z2[i] == join_at(y, x, i));
            }
            assert(z1 =~= z2);
        },
        (DM::Elems(x), DM::Elems(y)) => {
            lemma_join_comm(*x, *y);
        },
        _ => {},
    }
}

/// Meet does not depend on argument order.
pub proof fn lemma_meet_comm(a: DM, b: DM)
    ensures
        meet(a, b) == meet(b, a),
    decreases a, b,
{
    match (a, b) {
        (DM::Fields(x), DM::Fields(y)) => {
            assert forall|i: int| 0 <= i < x.len() && 0 <= i < y.len() && x[i] is Some && y[i] is Some
                implies meet(#[trigger] x[i]->0, y[i]->0) == meet(y[i]->0, x[i]->0) by {
                lemma_meet_comm(x[i]->0, y[i]->0);
            }
            assert forall|i: int| 0 <= i < (meet(a, b)->Fields_0).len() implies meet_at(x, y, i) == meet_at(y, x, i) by {
                if 0 <= i < x.len() && 0 <= i < y.len() && x[i] is Some && y[i] is Some {
                    lemma_meet_comm(x[i]->0, y[i]->0);
                }
            }
            let z1 = meet(a, b)->Fields_0;
            let z2 = meet(b, a)->Fields_0;
            assert(z1.len() == z2.len());
            assert forall|i: int| 0 <= i < z1.len() implies z1[i] == z2[i] by {
                assert(z1[i] == meet_at(x, y, i));
                assert(z2[i] == meet_at(y, x, i));
            }
            assert(z1 =~= z2);
        },
        (DM::Elems(x), DM::Elems(y)) => {
            lemma_meet_comm(*x, *y);
        },
        _ => {},
    }
}


// ---- executable lattice ----

impl Demand {
    /// A structural copy.
    pub fn copy(&self) -> (r: Demand)
        ensures
            r@ == self@,
        decreases self,
    {
        match self {
            Demand::Head => Demand::Head,
            Demand::Fields(fs) => {
                let c = copy_row(fs);
                proof {
                    lemma_fields_model(*fs);
                    lemma_fields_model(c);
                }
                Demand::Fields(c)
            },
            Demand::Elems(b) => Demand::Elems(Box::new(b.copy())),
        }
    }

    /// The two demands are the same.
    pub fn same(&self, other: &Demand) -> (r: bool)
        ensures
            r == (self@ == other@),
        decreases self,
    {
        match (self, other) {
            (Demand::Head, Demand::Head) => true,
            (Demand::Fields(a), Demand::Fields(b)) => {
                proof {
                    lemma_fields_model(*a);
                    lemma_fields_model(*b);
                }
                rows_same(a, b)
            },
            (Demand::Elems(a), Demand::Elems(b)) => a.same(b),
            _ => false,
        }
    }

    /// `self` subsumes `other`: any run satisfying `self` also satisfies
    /// `other`. Every demand subsumes `Head`.
    pub fn subsumes(&self, other: &Demand) -> (r: bool)
        ensures
            r == subsumes(self@, other@),
        decreases other, 1nat,
    {
        match (self, other) {
            (_, Demand::Head) => true,
            (Demand::Fields(a), Demand::Fields(b)) => {
                proof {
                    lemma_fields_model(*a);
                    lemma_fields_model(*b);
                }
                fields_subsume(a, b)
            },
            (Demand::Elems(a), Demand::Elems(b)) => a.subsumes(b),
            _ => false,
        }
    }

    /// Join: both demands occur on the same run.
    pub fn join(&self, other: &Demand) -> (r: Demand)
        ensures
            r@ == join(self@, other@),
        decreases self, other, 2nat,
    {
        match (self, other) {
            (Demand::Head, d) => d.copy(),
            (d, Demand::Head) => d.copy(),
            (Demand::Fields(a), Demand::Fields(b)) => {
                proof {
                    lemma_fields_model(*a);
                    lemma_fields_model(*b);
                }
                let out = fields_join(a, b);
                proof {
                    lemma_fields_model(out);
                }
                Demand::Fields(out)
            },
            (Demand::Elems(a), Demand::Elems(b)) => Demand::Elems(Box::new(a.join(b))),
            _ => Demand::Head,
        }
    }

    /// Meet: keep what both demands include.
    pub fn meet(&self, other: &Demand) -> (r: Demand)
        ensures
            r@ == meet(self@, other@),
        decreases self, other, 2nat,
    {
        match (self, other) {
            (Demand::Head, _) => Demand::Head,
            (_, Demand::Head) => Demand::Head,
            (Demand::Fields(a), Demand::Fields(b)) => {
                proof {
                    lemma_fields_model(*a);
                    lemma_fields_model(*b);
                }
                let out = fields_meet(a, b);
                proof {
                    lemma_fields_model(out);
                }
                Demand::Fields(out)
            },
            (Demand::Elems(a), Demand::Elems(b)) => Demand::Elems(Box::new(a.meet(b))),
            _ => Demand::Head,
        }
    }
}

/// Pointwise subsumption of two field lists.
fn fields_subsume(a: &Vec<Option<Demand>>, b: &Vec<Option<Demand>>) -> (r: bool)
    ensures
        r == subsumes(DM::Fields(row_model(a@)), DM::Fields(row_model(b@))),
    decreases b, 0nat,
{
    let ghost x = row_model(a@);
    let ghost y = row_model(b@);
    let mut i: usize = 0;
    while i < b.len()
        invariant
            i <= b@.len(),
            x == row_model(a@),
            y == row_model(b@),
            forall|j: int| 0 <= j < i ==> match #[trigger] y[j] {
                None => true,
                Some(db) => match field(x, j) {
                    Some(da) => subsumes(da, db),
                    None => false,
                },
            },
        decreases b@.len() - i,
    {
        match &b[i] {
            None => {},
            Some(db) => {
                assert(y[i as int] == Some(db@));
                if i >= a.len() {
                    assert(field(x, i as int) is None);
                    return false;
                }
                assert(field(x, i as int) == opt_model(a@[i as int]));
                match &a[i] {
                    None => {
                        return false;
                    },
                    Some(da) => {
                        if !da.subsumes(db) {
                            return false;
                        }
                    },
                }
            },
        }
        i = i + 1;
    }
    true
}

/// Field `i` of the join of two field lists.
fn join_field(a: &Vec<Option<Demand>>, b: &Vec<Option<Demand>>, i: usize) -> (r: Option<Demand>)
    ensures
        opt_model(r) == join_at(row_model(a@), row_model(b@), i as int),
    decreases a, b, 0nat,
{
    if i < a.len() && i < b.len() {
        match (&a[i], &b[i]) {
            (Some(da), Some(db)) => {
                return Some(da.join(db));
            },
            _ => {},
        }
    }
    if i < a.len() && a[i].is_some() {
        copy_opt(&a[i])
    } else if i < b.len() {
        copy_opt(&b[i])
    } else {
        None
    }
}

/// The join of two field lists.
fn fields_join(a: &Vec<Option<Demand>>, b: &Vec<Option<Demand>>) -> (r: Vec<Option<Demand>>)
    ensures
        row_model(r@) == join(DM::Fields(row_model(a@)), DM::Fields(row_model(b@)))->Fields_0,
    decreases a, b, 1nat,
{
    let n = if a.len() >= b.len() { a.len() } else { b.len() };
    let ghost z = join(DM::Fields(row_model(a@)), DM::Fields(row_model(b@)))->Fields_0;
    let mut out: Vec<Option<Demand>> = Vec::new();
    let mut i: usize = 0;
    while i < n
        invariant
            i <= n,
            n == z.len(),
            z == join(DM::Fields(row_model(a@)), DM::Fields(row_model(b@)))->Fields_0,
            out@.len() == i,
            forall|j: int| 0 <= j < i ==> opt_model(#[trigger] out@[j]) == z[j],
        decreases n - i,
    {
        let item = join_field(a, b, i);
        out.push(item);
        i = i + 1;
    }
    assert(row_model(out@) =~= z);
    out
}

/// Field `i` of the meet of two field lists.
fn meet_field(a: &Vec<Option<Demand>>, b: &Vec<Option<Demand>>, i: usize) -> (r: Option<Demand>)
    ensures
        opt_model(r) == meet_at(row_model(a@), row_model(b@), i as int),
    decreases a, b, 0nat,
{
    if i < a.len() && i < b.len() {
        match (&a[i], &b[i]) {
            (Some(da), Some(db)) => {
                return Some(da.meet(db));
            },
            _ => {},
        }
    }
    None
}

/// The meet of two field lists.
fn fields_meet(a: &Vec<Option<Demand>>, b: &Vec<Option<Demand>>) -> (r: Vec<Option<Demand>>)
    ensures
        row_model(r@) == meet(DM::Fields(row_model(a@)), DM::Fields(row_model(b@)))->Fields_0,
    decreases a, b, 1nat,
{
    let n = if a.len() >= b.len() { a.len() } else { b.len() };
    let ghost z = meet(DM::Fields(row_model(a@)), DM::Fields(row_model(b@)))->Fields_0;
    let mut out: Vec<Option<Demand>> = Vec::new();
    let mut i: usize = 0;
    while i < n
        invariant
            i <= n,
            n == z.len(),
            z == meet(DM::Fields(row_model(a@)), DM::Fields(row_model(b@)))->Fields_0,
            out@.len() == i,
            forall|j: int| 0 <= j < i ==> opt_model(#[trigger] out@[j]) == z[j],
        decreases n - i,
    {
        let item = meet_field(a, b, i);
        out.push(item);
        i = i + 1;
    }
    assert(row_model(out@) =~= z);
    out
}

/// Every element of a list, to WHNF.
pub fn elems_head() -> (r: Demand)
    ensures
        r@ == DM::Elems(Box::new(DM::Head)),
{
    let h = Demand::Head;
    assert(h@ == DM::Head);
    Demand::Elems(Box::new(h))
}

/// The two rows are the same.
pub fn rows_same(a: &Vec<Option<Demand>>, b: &Vec<Option<Demand>>) -> (r: bool)
    ensures
        r == (row_model(a@) == row_model(b@)),
    decreases a,
{
    if a.len() != b.len() {
        assert(row_model(a@).len() != row_model(b@).len());
        return false;
    }
    let mut i: usize = 0;
    while i < a.len()
        invariant
            i <= a@.len(),
            a@.len() == b@.len(),
            forall|j: int| 0 <= j < i ==> row_model(a@)[j] == row_model(b@)[j],
        decreases a@.len() - i,
    {
        let s = match (&a[i], &b[i]) {
            (None, None) => true,
            (Some(x), Some(y)) => x.same(y),
            _ => false,
        };
        assert(row_model(a@)[i as int] == opt_model(a@[i as int]));
        assert(row_model(b@)[i as int] == opt_model(b@[i as int]));
        if !s {
            return false;
        }
        i = i + 1;
    }
    assert(row_model(a@) =~= row_model(b@));
    true
}

/// The two optional rows are the same.
pub fn opt_rows_same(a: &Option<Vec<Option<Demand>>>, b: &Option<Vec<Option<Demand>>>) -> (r: bool)
    ensures
        r == (opt_row_model(*a) == opt_row_model(*b)),
{
    match (a, b) {
        (None, None) => true,
        (Some(x), Some(y)) => rows_same(x, y),
        _ => false,
    }
}

/// The model of an optional row.
pub open spec fn opt_row_model(o: Option<Vec<Option<Demand>>>) -> Option<Seq<Option<DM>>> {
    match o {
        Some(v) => Some(row_model(v@)),
        None => None,
    }
}

/// A copy of an optional demand.
pub fn copy_opt(o: &Option<Demand>) -> (r: Option<Demand>)
    ensures
        opt_model(r) == opt_model(*o),
{
    match o {
        Some(d) => Some(d.copy()),
        None => None,
    }
}

/// A copy of a demand row.
pub fn copy_row(fs: &Vec<Option<Demand>>) -> (r: Vec<Option<Demand>>)
    ensures
        row_model(r@) == row_model(fs@),
        r@.len() == fs@.len(),
        forall|i: int| 0 <= i < fs@.len() ==> opt_model(#[trigger] r@[i]) == opt_model(fs@[i]),
    decreases fs,
{
    let mut out: Vec<Option<Demand>> = Vec::new();
    let mut i: usize = 0;
    while i < fs.len()
        invariant
            i <= fs@.len(),
            out@.len() == i,
            forall|j: int| 0 <= j < i ==> opt_model(#[trigger] out@[j]) == opt_model(fs@[j]),
        decreases fs@.len() - i,
    {
        let c = match &fs[i] {
            Some(d) => Some(d.copy()),
            None => None,
        };
        out.push(c);
        i = i + 1;
    }
    assert(row_model(out@) =~= row_model(fs@));
    out
}

/// Meet of two optional demands: absent unless both are present.
pub open spec fn opt_meet_spec(a: Option<DM>, b: Option<DM>) -> Option<DM> {
    match (a, b) {
        (Some(x), Some(y)) => Some(meet(x, y)),
        _ => None,
    }
}

/// Meet of two optional demands.
pub fn opt_meet(a: Option<&Demand>, b: Option<&Demand>) -> (r: Option<Demand>)
    ensures
        opt_model(r) == opt_meet_spec(
            match a {
                Some(x) => Some(x@),
                None => None,
            },
            match b {
                Some(y) => Some(y@),
                None => None,
            },
        ),
{
    match (a, b) {
        (Some(x), Some(y)) => Some(x.meet(y)),
        _ => None,
    }
}


// ---- demand maps ----

/// A demand map: variable name → demand placed on it. Missing = lazy.
pub struct DemandMap {
    entries: Vec<(String, Demand)>,
}

/// The map held by an entry list (later entries win, though a well-formed
/// map has distinct keys).
pub open spec fn entries_map(es: Seq<(String, Demand)>) -> Map<Seq<char>, DM>
    decreases es.len(),
{
    if es.len() == 0 {
        Map::empty()
    } else {
        entries_map(es.drop_last()).insert(es.last().0@, es.last().1@)
    }
}

/// The keys of an entry list are distinct.
pub open spec fn distinct_keys(es: Seq<(String, Demand)>) -> bool {
    forall|i: int, j: int| 0 <= i < j < es.len() ==> es[i].0@ != es[j].0@
}

/// Pointwise join of two maps: variables demanded in either, joined where
/// both demand them.
pub open spec fn map_join_spec(a: Map<Seq<char>, DM>, b: Map<Seq<char>, DM>) -> Map<Seq<char>, DM> {
    Map::new(
        |k: Seq<char>| a.dom().contains(k) || b.dom().contains(k),
        |k: Seq<char>|
            if a.dom().contains(k) && b.dom().contains(k) {
                join(a[k], b[k])
            } else if a.dom().contains(k) {
                a[k]
            } else {
                b[k]
            },
    )
}

/// Pointwise meet: only variables demanded in both maps.
pub open spec fn map_meet_spec(a: Map<Seq<char>, DM>, b: Map<Seq<char>, DM>) -> Map<Seq<char>, DM> {
    Map::new(|k: Seq<char>| a.dom().contains(k) && b.dom().contains(k), |k: Seq<char>| meet(a[k], b[k]))
}

proof fn lemma_entries_map_index(es: Seq<(String, Demand)>, i: int)
    requires
        distinct_keys(es),
        0 <= i < es.len(),
    ensures
        entries_map(es).dom().contains(es[i].0@),
        entries_map(es)[es[i].0@] == es[i].1@,
    decreases es.len(),
{
    if i < es.len() - 1 {
        lemma_entries_map_index(es.drop_last(), i);
    }
}

proof fn lemma_entries_map_dom(es: Seq<(String, Demand)>, k: Seq<char>)
    ensures
        entries_map(es).dom().contains(k) <==> exists|i: int| 0 <= i < es.len() && es[i].0@ == k,
    decreases es.len(),
{
    if es.len() > 0 {
        lemma_entries_map_dom(es.drop_last(), k);
        if entries_map(es.drop_last()).dom().contains(k) {
            let i = choose|i: int| 0 <= i < es.drop_last().len() && es.drop_last()[i].0@ == k;
            assert(es[i].0@ == k);
        }
        if exists|i: int| 0 <= i < es.len() && es[i].0@ == k {
            let i = choose|i: int| 0 <= i < es.len() && es[i].0@ == k;
            if i < es.len() - 1 {
                assert(es.drop_last()[i].0@ == k);
            }
        }
    }
}

impl View for DemandMap {
    type V = Map<Seq<char>, DM>;

    closed spec fn view(&self) -> Map<Seq<char>, DM> {
        entries_map(self.entries@)
    }
}

impl DemandMap {
    /// Well-formed: every variable occurs once.
    pub closed spec fn wf(&self) -> bool {
        distinct_keys(self.entries@)
    }

    /// The empty map.
    pub fn new() -> (r: DemandMap)
        ensures
            r.wf(),
            r@ == Map::<Seq<char>, DM>::empty(),
    {
        DemandMap { entries: Vec::new() }
    }

    /// Position of `name`'s entry.
    fn position(&self, name: &str) -> (r: Option<usize>)
        requires
            self.wf(),
        ensures
            match r {
                Some(i) => i < self.entries@.len() && self.entries@[i as int].0@ == name@,
                None => !self@.dom().contains(name@),
            },
    {
        let mut i: usize = 0;
        while i < self.entries.len()
            invariant
                i <= self.entries@.len(),
                forall|j: int| 0 <= j < i ==> self.entries@[j].0@ != name@,
            decreases self.entries@.len() - i,
        {
            if str_eq(self.entries[i].0.as_str(), name) {
                return Some(i);
            }
            i = i + 1;
        }
        proof {
            lemma_entries_map_dom(self.entries@, name@);
        }
        None
    }

    /// The demand placed on `name`, if any.
    pub fn get(&self, name: &str) -> (r: Option<&Demand>)
        requires
            self.wf(),
        ensures
            match r {
                Some(d) => self@.dom().contains(name@) && self@[name@] == d@,
                None => !self@.dom().contains(name@),
            },
    {
        match self.position(name) {
            Some(i) => {
                proof {
                    lemma_entries_map_index(self.entries@, i as int);
                }
                Some(&self.entries[i].1)
            },
            None => None,
        }
    }

    /// Place demand `d` on `name`, joining with any demand already there.
    pub fn join_one(&mut self, name: &str, d: Demand)
        requires
            old(self).wf(),
        ensures
            final(self).wf(),
            final(self)@ == map_join_spec(old(self)@, map![name@ => d@]),
    {
        let ghost m0 = self@;
        match self.position(name) {
            Some(i) => {
                let joined = self.entries[i].1.join(&d);
                let key = String::from_str(name);
                let ghost es0 = self.entries@;
                proof {
                    lemma_entries_map_index(es0, i as int);
                }
                self.entries.set(i, (key, joined));
                proof {
                    let es1 = self.entries@;
                    assert forall|a: int, b: int| 0 <= a < b < es1.len() implies es1[a].0@ != es1[b].0@ by {
                        assert(es1[a].0@ == es0[a].0@);
                        assert(es1[b].0@ == es0[b].0@);
                    }
                    assert(distinct_keys(es1));
                    assert forall|k: Seq<char>| #![auto] self@.dom().contains(k) <==> m0.dom().contains(k) by {
                        lemma_entries_map_dom(es0, k);
                        lemma_entries_map_dom(es1, k);
                        if m0.dom().contains(k) {
                            let j = choose|j: int| 0 <= j < es0.len() && es0[j].0@ == k;
                            assert(es1[j].0@ == k);
                        }
                        if self@.dom().contains(k) {
                            let j = choose|j: int| 0 <= j < es1.len() && es1[j].0@ == k;
                            assert(es0[j].0@ == k);
                        }
                    }
                    assert forall|k: Seq<char>| #![auto] self@.dom().contains(k) implies self@[k] == map_join_spec(
                        m0,
                        map![name@ => d@],
                    )[k] by {
                        lemma_entries_map_dom(es1, k);
                        let j = choose|j: int| 0 <= j < es1.len() && es1[j].0@ == k;
                        lemma_entries_map_index(es1, j);
                        lemma_entries_map_index(es0, j);
                    }
                    assert(self@ =~= map_join_spec(m0, map![name@ => d@]));
                }
            },
            None => {
                let key = String::from_str(name);
                let ghost es0 = self.entries@;
                proof {
                    lemma_entries_map_dom(es0, name@);
                }
                self.entries.push((key, d));
                proof {
                    let es1 = self.entries@;
                    assert forall|a: int, b: int| 0 <= a < b < es1.len() implies es1[a].0@ != es1[b].0@ by {
                        if b == es1.len() - 1 {
                            assert(es1[a] == es0[a]);
                        }
                    }
                    assert(self.entries@.drop_last() =~= es0);
                    assert(self@ =~= map_join_spec(m0, map![name@ => d@]));
                }
            },
        }
    }
}

impl DemandMap {
    /// Drop `name`.
    pub fn remove(&mut self, name: &str)
        requires
            old(self).wf(),
        ensures
            final(self).wf(),
            final(self)@ == old(self)@.remove(name@),
    {
        let ghost m0 = self@;
        match self.position(name) {
            Some(i) => {
                let ghost es0 = self.entries@;
                self.entries.remove(i);
                proof {
                    let es1 = self.entries@;
                    assert(es1 =~= es0.remove(i as int));
                    assert forall|a: int, b: int| 0 <= a < b < es1.len() implies es1[a].0@ != es1[b].0@ by {
                        let a0 = if a < i { a } else { a + 1 };
                        let b0 = if b < i { b } else { b + 1 };
                        assert(es1[a] == es0[a0]);
                        assert(es1[b] == es0[b0]);
                    }
                    assert forall|k: Seq<char>| #![auto] self@.dom().contains(k) <==> m0.remove(name@).dom().contains(k) by {
                        lemma_entries_map_dom(es0, k);
                        lemma_entries_map_dom(es1, k);
                        if m0.dom().contains(k) && k != name@ {
                            let j = choose|j: int| 0 <= j < es0.len() && es0[j].0@ == k;
                            assert(j != i);
                            let j1 = if j < i { j } else { j - 1 };
                            assert(es1[j1] == es0[j]);
                        }
                        if self@.dom().contains(k) {
                            let j = choose|j: int| 0 <= j < es1.len() && es1[j].0@ == k;
                            let j0 = if j < i { j } else { j + 1 };
                            assert(es1[j] == es0[j0]);
                            assert(j0 != i);
                        }
                    }
                    assert forall|k: Seq<char>| #![auto] self@.dom().contains(k) implies self@[k] == m0.remove(name@)[k] by {
                        lemma_entries_map_dom(es1, k);
                        let j = choose|j: int| 0 <= j < es1.len() && es1[j].0@ == k;
                        let j0 = if j < i { j } else { j + 1 };
                        assert(es1[j] == es0[j0]);
                        lemma_entries_map_index(es1, j);
                        lemma_entries_map_index(es0, j0);
                    }
                    assert(self@ =~= m0.remove(name@));
                }
            },
            None => {
                assert(self@ =~= m0.remove(name@));
            },
        }
    }

    /// The map holding `name` alone, demanded `d`.
    pub fn single(name: &str, d: Demand) -> (r: DemandMap)
        ensures
            r.wf(),
            r@ == map![name@ => d@],
    {
        let mut m = DemandMap::new();
        m.join_one(name, d);
        assert(m@ =~= map![name@ => d@]);
        m
    }

    /// A copy.
    pub fn copy(&self) -> (r: DemandMap)
        requires
            self.wf(),
        ensures
            r.wf(),
            r@ == self@,
    {
        let mut out = DemandMap::new();
        map_join_ref(&mut out, self);
        assert(out@ =~= self@);
        out
    }

    /// The demanded names.
    pub fn keys(&self) -> (r: NameSet)
        ensures
            r@ == self@.dom(),
    {
        let mut r = NameSet::new();
        let mut i: usize = 0;
        while i < self.entries.len()
            invariant
                i <= self.entries@.len(),
                r@ == Set::new(|k: Seq<char>| exists|j: int| 0 <= j < i && #[trigger] self.entries@[j].0@ == k),
            decreases self.entries@.len() - i,
        {
            let ghost s0 = r@;
            r.insert(self.entries[i].0.as_str());
            proof {
                let s1 = Set::new(|k: Seq<char>| exists|j: int| 0 <= j < i + 1 && #[trigger] self.entries@[j].0@ == k);
                assert forall|k: Seq<char>| s1.contains(k) == r@.contains(k) by {
                    if s1.contains(k) {
                        let j = choose|j: int| 0 <= j < i + 1 && #[trigger] self.entries@[j].0@ == k;
                        if j < i {
                            assert(s0.contains(k));
                        }
                    }
                    if s0.contains(k) {
                        let j = choose|j: int| 0 <= j < i && #[trigger] self.entries@[j].0@ == k;
                        assert(s1.contains(k));
                    }
                }
                assert(r@ =~= s1);
            }
            i = i + 1;
        }
        proof {
            assert forall|k: Seq<char>| r@.contains(k) == self@.dom().contains(k) by {
                lemma_entries_map_dom(self.entries@, k);
            }
            assert(r@ =~= self@.dom());
        }
        r
    }
}

/// Join every demand of `from` into `into`, `from` borrowed.
pub fn map_join_ref(into: &mut DemandMap, from: &DemandMap)
    requires
        old(into).wf(),
        from.wf(),
    ensures
        final(into).wf(),
        final(into)@ == map_join_spec(old(into)@, from@),
{
    let ghost m0 = into@;
    let ghost es = from.entries@;
    let mut i: usize = 0;
    while i < from.entries.len()
        invariant
            into.wf(),
            es == from.entries@,
            distinct_keys(es),
            i <= es.len(),
            into@ == map_join_spec(m0, entries_map(es.take(i as int))),
        decreases es.len() - i,
    {
        let d = from.entries[i].1.copy();
        into.join_one(from.entries[i].0.as_str(), d);
        proof {
            let t = es.take(i as int + 1);
            assert(t.drop_last() =~= es.take(i as int));
            let k = es[i as int].0@;
            assert forall|j: int| 0 <= j < i implies es[j].0@ != k by {}
            lemma_entries_map_dom(es.take(i as int), k);
            assert(!entries_map(es.take(i as int)).dom().contains(k));
            assert forall|q: Seq<char>| #![auto] into@.dom().contains(q) implies into@[q] == map_join_spec(m0, entries_map(t))[q] by {
                if q == k {
                    if m0.dom().contains(q) {
                        lemma_join_comm(m0[q], es[i as int].1@);
                    }
                }
            }
            assert(into@ =~= map_join_spec(m0, entries_map(t)));
        }
        i = i + 1;
    }
    assert(es.take(es.len() as int) =~= es);
}

/// Join every demand of `from` into `into`.
pub fn map_join(into: &mut DemandMap, from: DemandMap)
    requires
        old(into).wf(),
        from.wf(),
    ensures
        final(into).wf(),
        final(into)@ == map_join_spec(old(into)@, from@),
{
    let ghost m0 = into@;
    let ghost es = from.entries@;
    let mut i: usize = 0;
    while i < from.entries.len()
        invariant
            into.wf(),
            es == from.entries@,
            distinct_keys(es),
            i <= es.len(),
            into@ == map_join_spec(m0, entries_map(es.take(i as int))),
        decreases es.len() - i,
    {
        let d = from.entries[i].1.copy();
        let ghost before = into@;
        into.join_one(from.entries[i].0.as_str(), d);
        proof {
            let t = es.take(i as int + 1);
            assert(t.drop_last() =~= es.take(i as int));
            let k = es[i as int].0@;
            assert forall|j: int| 0 <= j < i implies es[j].0@ != k by {}
            lemma_entries_map_dom(es.take(i as int), k);
            assert(!entries_map(es.take(i as int)).dom().contains(k));
            assert forall|q: Seq<char>| #![auto] into@.dom().contains(q) == map_join_spec(m0, entries_map(t)).dom().contains(q) by {}
            assert forall|q: Seq<char>| #![auto] into@.dom().contains(q) implies into@[q] == map_join_spec(m0, entries_map(t))[q] by {
                if q == k {
                    if m0.dom().contains(q) {
                        lemma_join_comm(m0[q], es[i as int].1@);
                    }
                }
            }
            assert(into@ =~= map_join_spec(m0, entries_map(t)));
        }
        i = i + 1;
    }
    assert(es.take(es.len() as int) =~= es);
}

/// Pointwise meet: keeps only variables demanded in both maps.
pub fn map_meet(a: &DemandMap, b: &DemandMap) -> (r: DemandMap)
    requires
        a.wf(),
        b.wf(),
    ensures
        r.wf(),
        r@ == map_meet_spec(a@, b@),
{
    let mut out = DemandMap { entries: Vec::new() };
    let ghost es = a.entries@;
    let mut i: usize = 0;
    while i < a.entries.len()
        invariant
            out.wf(),
            a.wf(),
            b.wf(),
            es == a.entries@,
            i <= es.len(),
            out@ == map_meet_spec(entries_map(es.take(i as int)), b@),
            forall|j: int| 0 <= j < out.entries@.len() ==> exists|k: int| 0 <= k < i && (#[trigger] out.entries@[j]).0@ == es[k].0@,
        decreases es.len() - i,
    {
        let ghost before = out.entries@;
        proof {
            let t = es.take(i as int + 1);
            assert(t.drop_last() =~= es.take(i as int));
        }
        match b.get(a.entries[i].0.as_str()) {
            Some(vb) => {
                let m = a.entries[i].1.meet(vb);
                let key = String::from_str(a.entries[i].0.as_str());
                proof {
                    let k = es[i as int].0@;
                    assert forall|j: int| 0 <= j < before.len() implies before[j].0@ != k by {
                        let q = choose|q: int| 0 <= q < i && before[j].0@ == es[q].0@;
                    }
                }
                out.entries.push((key, m));
                proof {
                    assert(out.entries@.drop_last() =~= before);
                }
            },
            None => {},
        }
        proof {
            let t = es.take(i as int + 1);
            let k = es[i as int].0@;
            lemma_entries_map_dom(es.take(i as int), k);
            assert forall|j: int| 0 <= j < i implies es[j].0@ != k by {}
            assert(out@ =~= map_meet_spec(entries_map(t), b@));
        }
        i = i + 1;
    }
    assert(es.take(es.len() as int) =~= es);
    out
}


// ---- demand of a type ----

/// The deepest demand modelled for a value of type `ty`, action wrappers
/// stripped first.
pub open spec fn deep_of(ty: Ty) -> DM
    decreases ty, 1nat,
{
    match ty {
        Ty::IO(t) => deep_of(*t),
        Ty::LuaIO(_, t) => deep_of(*t),
        Ty::Forall(_, t) => deep_of(*t),
        Ty::App(f, t) => if crate::types::is_st_head(*f) {
            deep_of(*t)
        } else {
            DM::Head
        },
        Ty::Tuple(ts) => DM::Fields(Seq::new(ts@.len(), |i: int|
            if 0 <= i < ts@.len() { Some(deep_of(ts@[i])) } else { None })),
        Ty::List(t) => DM::Elems(Box::new(deep_of(*t))),
        _ => DM::Head,
    }
}

/// `d` asks of a value of type `ty` no more than the value's shape holds:
/// `Elems` only of a list (each element under the inner demand), `Fields`
/// only of a tuple (each listed field under its own demand); action
/// wrappers and quantifiers are looked through. `Head` fits every type.
pub open spec fn fits(d: DM, ty: Ty) -> bool
    decreases ty,
{
    match d {
        DM::Head => true,
        _ => match ty {
            Ty::IO(t) => fits(d, *t),
            Ty::LuaIO(_, t) => fits(d, *t),
            Ty::Forall(_, t) => fits(d, *t),
            Ty::App(f, t) => crate::types::is_st_head(*f) && fits(d, *t),
            Ty::List(t) => match d {
                DM::Elems(e) => fits(*e, *t),
                _ => false,
            },
            Ty::Tuple(ts) => match d {
                DM::Fields(ds) => ds.len() <= ts@.len() && forall|i: int| 0 <= i < ds.len() ==> match #[trigger] ds[i] {
                    None => true,
                    Some(di) => fits(di, ts@[i]),
                },
                _ => false,
            },
            _ => false,
        },
    }
}

/// The deep demand of a type is the deepest demand that fits it: it
/// subsumes every demand that fits the type. (So a list type's deep demand
/// forces every element as deeply as the element type allows, and a
/// tuple's every field as deeply as that field's type allows.)
pub proof fn lemma_deep_of_deepest(ty: Ty, d: DM)
    requires
        fits(d, ty),
    ensures
        subsumes(deep_of(ty), d),
    decreases ty,
{
    match d {
        DM::Head => {},
        _ => match ty {
            Ty::IO(t) => lemma_deep_of_deepest(*t, d),
            Ty::LuaIO(_, t) => lemma_deep_of_deepest(*t, d),
            Ty::Forall(_, t) => lemma_deep_of_deepest(*t, d),
            Ty::App(f, t) => lemma_deep_of_deepest(*t, d),
            Ty::List(t) => {
                match d {
                    DM::Elems(e) => lemma_deep_of_deepest(*t, *e),
                    _ => {},
                }
            },
            Ty::Tuple(ts) => {
                match d {
                    DM::Fields(ds) => {
                        let x = deep_of(ty)->Fields_0;
                        assert(x.len() == ts@.len());
                        assert forall|i: int| 0 <= i < ds.len() implies match #[trigger] ds[i] {
                            None => true,
                            Some(db) => match field(x, i) {
                                Some(da) => subsumes(da, db),
                                None => false,
                            },
                        } by {
                            assert(match ds[i] {
                                None => true,
                                Some(di) => fits(di, ts@[i]),
                            });
                            if let Some(db) = ds[i] {
                                assert(decreases_to!(ts => ts@[i]));
                                assert(field(x, i) == Some(deep_of(ts@[i])));
                                lemma_deep_of_deepest(ts@[i], db);
                            }
                        }
                    },
                    _ => {},
                }
            },
            _ => {},
        },
    }
}

/// The deep demand of a type fits it.
pub proof fn lemma_deep_of_fits(ty: Ty)
    ensures
        fits(deep_of(ty), ty),
    decreases ty,
{
    match ty {
        Ty::IO(t) => lemma_deep_of_fits(*t),
        Ty::LuaIO(_, t) => lemma_deep_of_fits(*t),
        Ty::Forall(_, t) => lemma_deep_of_fits(*t),
        Ty::App(f, t) => lemma_deep_of_fits(*t),
        Ty::List(t) => lemma_deep_of_fits(*t),
        Ty::Tuple(ts) => {
            let x = deep_of(ty)->Fields_0;
            assert forall|i: int| 0 <= i < x.len() implies match #[trigger] x[i] {
                None => true,
                Some(di) => fits(di, ts@[i]),
            } by {
                assert(decreases_to!(ts => ts@[i]));
                lemma_deep_of_fits(ts@[i]);
            }
        },
        _ => {},
    }
}

/// The deepest demand this analysis models for a value of type `ty`:
/// action wrappers stripped, tuples get all fields forced (recursively),
/// lists spine and elements; everything else is `Head`.
pub fn deep_of_ty(ty: &Ty) -> (r: Demand)
    ensures
        r@ == deep_of(*ty),
    decreases ty,
{
    match ty {
        Ty::IO(t) => deep_of_ty(t),
        Ty::LuaIO(_, t) => deep_of_ty(t),
        Ty::Forall(_, t) => deep_of_ty(t),
        Ty::App(f, t) => {
            if crate::types::st_head(f) {
                deep_of_ty(t)
            } else {
                Demand::Head
            }
        },
        Ty::Tuple(ts) => {
            let out = deep_of_tys(ts);
            proof {
                lemma_fields_model(out);
                assert(row_model(out@) =~= deep_of(*ty)->Fields_0);
            }
            Demand::Fields(out)
        },
        Ty::List(t) => Demand::Elems(Box::new(deep_of_ty(t))),
        _ => Demand::Head,
    }
}

/// The deep demand of each type of a list.
fn deep_of_tys(ts: &Vec<Ty>) -> (r: Vec<Option<Demand>>)
    ensures
        r@.len() == ts@.len(),
        forall|j: int| 0 <= j < ts@.len() ==> opt_model(#[trigger] r@[j]) == Some(deep_of(ts@[j])),
    decreases ts,
{
    let mut out: Vec<Option<Demand>> = Vec::new();
    let mut i: usize = 0;
    while i < ts.len()
        invariant
            i <= ts@.len(),
            out@.len() == i,
            forall|j: int| 0 <= j < i ==> opt_model(#[trigger] out@[j]) == Some(deep_of(ts@[j])),
        decreases ts@.len() - i,
    {
        assert(decreases_to!(ts => ts@[i as int]));
        let d = deep_of_ty(&ts[i]);
        out.push(Some(d));
        i = i + 1;
    }
    out
}

// ---- rows ----

/// A set of names.
pub struct NameSet {
    names: Vec<String>,
}

impl View for NameSet {
    type V = Set<Seq<char>>;

    closed spec fn view(&self) -> Set<Seq<char>> {
        Set::new(|k: Seq<char>| exists|i: int| 0 <= i < self.names@.len() && #[trigger] self.names@[i]@ == k)
    }
}

impl NameSet {
    /// The empty set.
    pub fn new() -> (r: NameSet)
        ensures
            r@ == Set::<Seq<char>>::empty(),
    {
        let r = NameSet { names: Vec::new() };
        assert(r@ =~= Set::<Seq<char>>::empty());
        r
    }

    /// Is `name` in the set?
    pub fn contains(&self, name: &str) -> (r: bool)
        ensures
            r == self@.contains(name@),
    {
        let mut i: usize = 0;
        while i < self.names.len()
            invariant
                i <= self.names@.len(),
                forall|j: int| 0 <= j < i ==> self.names@[j]@ != name@,
            decreases self.names@.len() - i,
        {
            if str_eq(self.names[i].as_str(), name) {
                return true;
            }
            i = i + 1;
        }
        false
    }

    /// The members, each at least once, in insertion order.
    pub fn to_vec(&self) -> (r: Vec<String>)
        ensures
            forall|k: Seq<char>| self@.contains(k) <==> exists|j: int| 0 <= j < r@.len() && #[trigger] r@[j]@ == k,
    {
        let mut r: Vec<String> = Vec::new();
        let mut i: usize = 0;
        while i < self.names.len()
            invariant
                i <= self.names@.len(),
                r@.len() == i,
                forall|j: int| 0 <= j < i ==> #[trigger] r@[j]@ == self.names@[j]@,
            decreases self.names@.len() - i,
        {
            r.push(self.names[i].clone());
            i = i + 1;
        }
        proof {
            assert forall|k: Seq<char>| self@.contains(k) <==> exists|j: int| 0 <= j < r@.len() && #[trigger] r@[j]@ == k by {
                if self@.contains(k) {
                    let j = choose|j: int| 0 <= j < self.names@.len() && self.names@[j]@ == k;
                    assert(r@[j]@ == k);
                }
                if exists|j: int| 0 <= j < r@.len() && #[trigger] r@[j]@ == k {
                    let j = choose|j: int| 0 <= j < r@.len() && #[trigger] r@[j]@ == k;
                    assert(self.names@[j]@ == k);
                }
            }
        }
        r
    }

    /// Add every member of `other`.
    pub fn union_with(&mut self, other: &NameSet)
        ensures
            final(self)@ == old(self)@ + other@,
    {
        let mut i: usize = 0;
        while i < other.names.len()
            invariant
                i <= other.names@.len(),
                self@ == old(self)@ + Set::new(|k: Seq<char>| exists|j: int| 0 <= j < i && #[trigger] other.names@[j]@ == k),
            decreases other.names@.len() - i,
        {
            let ghost before = self@;
            self.insert(other.names[i].as_str());
            proof {
                let s_i = Set::new(|k: Seq<char>| exists|j: int| 0 <= j < i && #[trigger] other.names@[j]@ == k);
                let s_i1 = Set::new(|k: Seq<char>| exists|j: int| 0 <= j < i + 1 && #[trigger] other.names@[j]@ == k);
                assert forall|k: Seq<char>| s_i1.contains(k) == s_i.insert(other.names@[i as int]@).contains(k) by {
                    if s_i1.contains(k) {
                        let j = choose|j: int| 0 <= j < i + 1 && #[trigger] other.names@[j]@ == k;
                        if j < i {
                            assert(s_i.contains(k));
                        }
                    }
                }
                assert(s_i1 =~= s_i.insert(other.names@[i as int]@));
                assert(self@ =~= old(self)@ + s_i1);
            }
            i = i + 1;
        }
        assert(self@ =~= old(self)@ + other@);
    }

    /// The members also in `other`.
    pub fn intersect(&self, other: &NameSet) -> (r: NameSet)
        ensures
            r@ == self@.intersect(other@),
    {
        let mut r = NameSet::new();
        let mut i: usize = 0;
        while i < self.names.len()
            invariant
                i <= self.names@.len(),
                r@ == Set::new(|k: Seq<char>| exists|j: int| 0 <= j < i && #[trigger] self.names@[j]@ == k).intersect(other@),
            decreases self.names@.len() - i,
        {
            let ghost s_i = Set::new(|k: Seq<char>| exists|j: int| 0 <= j < i && #[trigger] self.names@[j]@ == k);
            if other.contains(self.names[i].as_str()) {
                r.insert(self.names[i].as_str());
            }
            proof {
                let s_i1 = Set::new(|k: Seq<char>| exists|j: int| 0 <= j < i + 1 && #[trigger] self.names@[j]@ == k);
                assert forall|k: Seq<char>| s_i1.contains(k) == s_i.insert(self.names@[i as int]@).contains(k) by {
                    if s_i1.contains(k) {
                        let j = choose|j: int| 0 <= j < i + 1 && #[trigger] self.names@[j]@ == k;
                        if j < i {
                            assert(s_i.contains(k));
                        }
                    }
                }
                assert(r@ =~= s_i1.intersect(other@));
            }
            i = i + 1;
        }
        proof {
            let s_n = Set::new(|k: Seq<char>| exists|j: int| 0 <= j < i && #[trigger] self.names@[j]@ == k);
            assert(s_n =~= self@);
        }
        r
    }

    /// The members not in `other`.
    pub fn minus(&self, other: &NameSet) -> (r: NameSet)
        ensures
            r@ == self@.difference(other@),
    {
        let mut r = NameSet::new();
        let mut i: usize = 0;
        while i < self.names.len()
            invariant
                i <= self.names@.len(),
                r@ == Set::new(|k: Seq<char>| exists|j: int| 0 <= j < i && #[trigger] self.names@[j]@ == k).difference(other@),
            decreases self.names@.len() - i,
        {
            let ghost s_i = Set::new(|k: Seq<char>| exists|j: int| 0 <= j < i && #[trigger] self.names@[j]@ == k);
            if !other.contains(self.names[i].as_str()) {
                r.insert(self.names[i].as_str());
            }
            proof {
                let s_i1 = Set::new(|k: Seq<char>| exists|j: int| 0 <= j < i + 1 && #[trigger] self.names@[j]@ == k);
                assert forall|k: Seq<char>| s_i1.contains(k) == s_i.insert(self.names@[i as int]@).contains(k) by {
                    if s_i1.contains(k) {
                        let j = choose|j: int| 0 <= j < i + 1 && #[trigger] self.names@[j]@ == k;
                        if j < i {
                            assert(s_i.contains(k));
                        }
                    }
                }
                assert(r@ =~= s_i1.difference(other@));
            }
            i = i + 1;
        }
        proof {
            let s_n = Set::new(|k: Seq<char>| exists|j: int| 0 <= j < i && #[trigger] self.names@[j]@ == k);
            assert(s_n =~= self@);
        }
        r
    }

    /// Remove `name`.
    pub fn remove(&mut self, name: &str)
        ensures
            final(self)@ == old(self)@.remove(name@),
    {
        let one = NameSet { names: vec![String::from_str(name)] };
        proof {
            assert(one.names@[0]@ == name@);
            assert(one@ =~= set![name@]);
        }
        let r = self.minus(&one);
        *self = r;
        assert(self@ =~= old(self)@.remove(name@));
    }

    /// Add `name` to the set.
    pub fn insert(&mut self, name: &str)
        ensures
            final(self)@ == old(self)@.insert(name@),
    {
        let ghost old_names = self.names@;
        self.names.push(String::from_str(name));
        proof {
            assert(self.names@[old_names.len() as int]@ == name@);
            assert forall|k: Seq<char>| #![auto] self@.contains(k) == old(self)@.insert(name@).contains(k) by {
                if self@.contains(k) {
                    let i = choose|i: int| 0 <= i < self.names@.len() && self.names@[i]@ == k;
                    if i < old_names.len() {
                        assert(old_names[i]@ == k);
                    }
                }
                if old(self)@.contains(k) {
                    let i = choose|i: int| 0 <= i < old_names.len() && old_names[i]@ == k;
                    assert(self.names@[i]@ == k);
                }
            }
            assert(self@ =~= old(self)@.insert(name@));
        }
    }
}

/// Named rows, a later entry replacing an earlier one of the same name.
pub open spec fn row_entries_map(es: Seq<(String, Vec<Option<Demand>>)>) -> Map<Seq<char>, Seq<Option<DM>>>
    decreases es.len(),
{
    if es.len() == 0 {
        Map::empty()
    } else {
        row_entries_map(es.drop_last()).insert(es.last().0@, row_model(es.last().1@))
    }
}

/// The last entry named `name`.
fn row_lookup<'a>(es: &'a Vec<(String, Vec<Option<Demand>>)>, name: &str) -> (r: Option<&'a Vec<Option<Demand>>>)
    ensures
        match r {
            Some(v) => row_entries_map(es@).dom().contains(name@) && row_entries_map(es@)[name@] == row_model(v@),
            None => !row_entries_map(es@).dom().contains(name@),
        },
{
    let mut i: usize = es.len();
    assert(es@.take(es@.len() as int) =~= es@);
    while i > 0
        invariant
            i <= es@.len(),
            forall|j: int| i <= j < es@.len() ==> es@[j].0@ != name@,
            row_entries_map(es@).dom().contains(name@) == row_entries_map(es@.take(i as int)).dom().contains(name@),
            row_entries_map(es@).dom().contains(name@) ==> row_entries_map(es@)[name@] == row_entries_map(es@.take(i as int))[name@],
        decreases i,
    {
        let ghost t = es@.take(i as int);
        assert(t.drop_last() =~= es@.take(i as int - 1));
        if str_eq(es[i - 1].0.as_str(), name) {
            assert(t.last() == es@[i - 1]);
            return Some(&es[i - 1].1);
        }
        i = i - 1;
    }
    assert(es@.take(0) =~= Seq::<(String, Vec<Option<Demand>>)>::empty());
    None
}

/// Rows as values: run rows, deep rows, deep result demands, by name.
pub type RM = (Map<Seq<char>, Seq<Option<DM>>>, Map<Seq<char>, Seq<Option<DM>>>, Map<Seq<char>, DM>);

/// Structured demand rows for every analyzed function, plus the
/// whole-program deep-result set.
pub struct Rows {
    /// name → per-parameter demand when the function runs and its result
    /// is demanded to WHNF.
    run: Vec<(String, Vec<Option<Demand>>)>,
    /// name → per-parameter demand under the deep result demand.
    deep: Vec<(String, Vec<Option<Demand>>)>,
    /// Functions whose every program reference is a fully-applied call
    /// whose result receives the deep demand of its type.
    deep_result: NameSet,
    /// name → deep demand of the function's (action-stripped) result type.
    result_deep: DemandMap,
}

impl Rows {
    /// Rows with no functions.
    pub fn new() -> (r: Rows)
        ensures
            r.deep_result_set() == Set::<Seq<char>>::empty(),
            r.result_deep_map() == Map::<Seq<char>, DM>::empty(),
            r.run_map() == Map::<Seq<char>, Seq<Option<DM>>>::empty(),
            r.deep_map() == Map::<Seq<char>, Seq<Option<DM>>>::empty(),
            r.wf(),
    {
        Rows { run: Vec::new(), deep: Vec::new(), deep_result: NameSet::new(), result_deep: DemandMap::new() }
    }

    pub closed spec fn wf(&self) -> bool {
        self.result_deep.wf()
    }

    /// The rows a call site reads, as values: run rows, deep rows and deep
    /// result demands.
    pub open spec fn model(&self) -> RM {
        (self.run_map(), self.deep_map(), self.result_deep_map())
    }

    /// The deep-result functions.
    pub closed spec fn deep_result_set(&self) -> Set<Seq<char>> {
        self.deep_result@
    }

    /// Is `name` a deep-result function?
    pub fn has_deep_result(&self, name: &str) -> (r: bool)
        ensures
            r == self.deep_result_set().contains(name@),
    {
        self.deep_result.contains(name)
    }

    /// Mark `name` as a deep-result function.
    pub fn add_deep_result(&mut self, name: &str)
        ensures
            final(self).deep_result_set() == old(self).deep_result_set().insert(name@),
            final(self).result_deep_map() == old(self).result_deep_map(),
            final(self).wf() == old(self).wf(),
    {
        self.deep_result.insert(name);
    }

    /// The deep result demands, as a map.
    pub closed spec fn result_deep_map(&self) -> Map<Seq<char>, DM> {
        self.result_deep@
    }

    /// Record the deep result demand of `name`'s type.
    pub fn set_result_deep(&mut self, name: &str, d: Demand)
        requires
            old(self).wf(),
            !old(self).result_deep_map().dom().contains(name@),
        ensures
            final(self).wf(),
            final(self).result_deep_map() == old(self).result_deep_map().insert(name@, d@),
            final(self).deep_result_set() == old(self).deep_result_set(),
    {
        let ghost before = self.result_deep@;
        self.result_deep.join_one(name, d);
        assert(self.result_deep@ =~= before.insert(name@, d@));
    }

    /// Set the deep result demand of `name`'s type (replacing any earlier).
    pub fn replace_result_deep(&mut self, name: &str, d: Demand)
        requires
            old(self).wf(),
        ensures
            final(self).wf(),
            final(self).result_deep_map() == old(self).result_deep_map().insert(name@, d@),
            final(self).run_map() == old(self).run_map(),
            final(self).deep_map() == old(self).deep_map(),
            final(self).deep_result_set() == old(self).deep_result_set(),
    {
        let ghost before = self.result_deep@;
        self.result_deep.remove(name);
        self.result_deep.join_one(name, d);
        assert(self.result_deep@ =~= before.insert(name@, d@));
    }

    /// The run rows, as a map.
    pub closed spec fn run_map(&self) -> Map<Seq<char>, Seq<Option<DM>>> {
        row_entries_map(self.run@)
    }

    /// The deep rows, as a map.
    pub closed spec fn deep_map(&self) -> Map<Seq<char>, Seq<Option<DM>>> {
        row_entries_map(self.deep@)
    }

    /// Record `name`'s run row (replacing any earlier one).
    pub fn set_run(&mut self, name: &str, row: Vec<Option<Demand>>)
        ensures
            final(self).run_map() == old(self).run_map().insert(name@, row_model(row@)),
            final(self).deep_map() == old(self).deep_map(),
            final(self).result_deep_map() == old(self).result_deep_map(),
            final(self).deep_result_set() == old(self).deep_result_set(),
            final(self).wf() == old(self).wf(),
    {
        let key = String::from_str(name);
        let ghost r0 = self.run@;
        self.run.push((key, row));
        assert(self.run@.drop_last() =~= r0);
    }

    /// Record `name`'s deep row (replacing any earlier one).
    pub fn set_deep(&mut self, name: &str, row: Vec<Option<Demand>>)
        ensures
            final(self).deep_map() == old(self).deep_map().insert(name@, row_model(row@)),
            final(self).run_map() == old(self).run_map(),
            final(self).result_deep_map() == old(self).result_deep_map(),
            final(self).deep_result_set() == old(self).deep_result_set(),
            final(self).wf() == old(self).wf(),
    {
        let key = String::from_str(name);
        let ghost r0 = self.deep@;
        self.deep.push((key, row));
        assert(self.deep@.drop_last() =~= r0);
    }

    /// `name`'s run row.
    pub fn run_row(&self, name: &str) -> (r: Option<&Vec<Option<Demand>>>)
        ensures
            match r {
                Some(v) => self.run_map().dom().contains(name@) && self.run_map()[name@] == row_model(v@),
                None => !self.run_map().dom().contains(name@),
            },
    {
        row_lookup(&self.run, name)
    }

    /// `name`'s deep row.
    pub fn deep_row(&self, name: &str) -> (r: Option<&Vec<Option<Demand>>>)
        ensures
            match r {
                Some(v) => self.deep_map().dom().contains(name@) && self.deep_map()[name@] == row_model(v@),
                None => !self.deep_map().dom().contains(name@),
            },
    {
        row_lookup(&self.deep, name)
    }

    /// `name`'s deep result demand.
    pub fn result_deep_of(&self, name: &str) -> (r: Option<&Demand>)
        requires
            self.wf(),
        ensures
            match r {
                Some(d) => self.result_deep_map().dom().contains(name@) && self.result_deep_map()[name@] == d@,
                None => !self.result_deep_map().dom().contains(name@),
            },
    {
        self.result_deep.get(name)
    }

    /// The functions with a deep result demand.
    pub fn result_deep_names(&self) -> (r: NameSet)
        ensures
            r@ == self.result_deep_map().dom(),
    {
        self.result_deep.keys()
    }

    /// Replace the deep-result set.
    pub fn set_deep_result(&mut self, names: NameSet)
        ensures
            final(self).deep_result_set() == names@,
            final(self).model() == old(self).model(),
            final(self).wf() == old(self).wf(),
    {
        self.deep_result = names;
    }

    /// The result demand codegen must assume for `name`'s own body: the
    /// deep demand of its result type when every call site provably
    /// applies it, plain WHNF otherwise.
    pub fn result_demand(&self, name: &str) -> (r: Demand)
        requires
            self.wf(),
        ensures
            r@ == if self.deep_result_set().contains(name@) && self.result_deep_map().dom().contains(name@) {
                self.result_deep_map()[name@]
            } else {
                DM::Head
            },
    {
        if self.deep_result.contains(name) {
            match self.result_deep.get(name) {
                Some(d) => d.copy(),
                None => Demand::Head,
            }
        } else {
            Demand::Head
        }
    }
}

/// A local function's rows as values: run row, deep row (if any), deep
/// result demand.
pub type LRM = (Seq<Option<DM>>, Option<Seq<Option<DM>>>, DM);

/// Signatures of a clause's where-bound local functions.
pub struct LocalRows {
    run: Vec<Option<Demand>>,
    deep: Option<Vec<Option<Demand>>>,
    result_deep: Demand,
}

impl LocalRows {
    /// A local function's rows: its run row, its deep row if it has one,
    /// and the deep demand of its result type.
    pub fn new(run: Vec<Option<Demand>>, deep: Option<Vec<Option<Demand>>>, result_deep: Demand) -> (r: LocalRows)
        ensures
            r.run_row() == row_model(run@),
            r.deep_row() == match deep {
                Some(d) => Some(row_model(d@)),
                None => None,
            },
            r.result() == result_deep@,
    {
        LocalRows { run, deep, result_deep }
    }

    /// The rows as values: run row, deep row, deep result demand.
    pub open spec fn model(&self) -> LRM {
        (self.run_row(), self.deep_row(), self.result())
    }

    /// A copy of the run row.
    pub fn run_copy(&self) -> (r: Vec<Option<Demand>>)
        ensures
            row_model(r@) == self.run_row(),
    {
        copy_row(&self.run)
    }

    /// A copy of the deep row.
    pub fn deep_copy(&self) -> (r: Option<Vec<Option<Demand>>>)
        ensures
            opt_row_model(r) == self.deep_row(),
    {
        match &self.deep {
            Some(d) => Some(copy_row(d)),
            None => None,
        }
    }

    /// A copy of the deep result demand.
    pub fn result_copy(&self) -> (r: Demand)
        ensures
            r@ == self.result(),
    {
        self.result_deep.copy()
    }

    pub closed spec fn run_row(&self) -> Seq<Option<DM>> {
        row_model(self.run@)
    }

    pub closed spec fn deep_row(&self) -> Option<Seq<Option<DM>>> {
        match self.deep {
            Some(d) => Some(row_model(d@)),
            None => None,
        }
    }

    pub closed spec fn result(&self) -> DM {
        self.result_deep@
    }

    /// The parameter row for a call whose result receives demand `rd`: the
    /// deep row when `rd` subsumes the deep result demand, the run row
    /// otherwise.
    pub fn row_for(&self, rd: &Demand) -> (r: Vec<Option<Demand>>)
        ensures
            row_model(r@) == if self.deep_row() is Some && subsumes(rd@, self.result()) {
                self.deep_row()->0
            } else {
                self.run_row()
            },
    {
        match &self.deep {
            Some(d) => {
                if rd.subsumes(&self.result_deep) {
                    return copy_row(d);
                }
            },
            None => {},
        }
        copy_row(&self.run)
    }
}

/// The rows of the where-bound local functions in scope, by name; a later
/// entry replaces an earlier one of the same name.
pub struct LocalEnv {
    entries: Vec<(String, LocalRows)>,
}

pub open spec fn local_entries_map(es: Seq<(String, LocalRows)>) -> Map<Seq<char>, LocalRows>
    decreases es.len(),
{
    if es.len() == 0 {
        Map::empty()
    } else {
        local_entries_map(es.drop_last()).insert(es.last().0@, es.last().1)
    }
}

impl View for LocalEnv {
    type V = Map<Seq<char>, LocalRows>;

    closed spec fn view(&self) -> Map<Seq<char>, LocalRows> {
        local_entries_map(self.entries@)
    }
}

impl LocalEnv {
    /// The rows of each local function, as values.
    pub open spec fn models(&self) -> Map<Seq<char>, LRM> {
        self@.map_values(|l: LocalRows| l.model())
    }

    /// No local functions.
    pub fn new() -> (r: LocalEnv)
        ensures
            r@ == Map::<Seq<char>, LocalRows>::empty(),
    {
        LocalEnv { entries: Vec::new() }
    }

    /// Record `name`'s rows (replacing any earlier ones).
    pub fn insert(&mut self, name: &str, rows: LocalRows)
        ensures
            final(self)@ == old(self)@.insert(name@, rows),
    {
        let key = String::from_str(name);
        let ghost e0 = self.entries@;
        self.entries.push((key, rows));
        assert(self.entries@.drop_last() =~= e0);
    }

    /// `name`'s rows.
    pub fn get(&self, name: &str) -> (r: Option<&LocalRows>)
        ensures
            match r {
                Some(l) => self@.dom().contains(name@) && self@[name@] == *l,
                None => !self@.dom().contains(name@),
            },
    {
        let es = &self.entries;
        let mut i: usize = es.len();
        assert(es@.take(es@.len() as int) =~= es@);
        while i > 0
            invariant
                i <= es@.len(),
                es@ == self.entries@,
                local_entries_map(es@).dom().contains(name@) == local_entries_map(es@.take(i as int)).dom().contains(name@),
                local_entries_map(es@).dom().contains(name@) ==> local_entries_map(es@)[name@] == local_entries_map(es@.take(i as int))[name@],
            decreases i,
        {
            let ghost t = es@.take(i as int);
            assert(t.drop_last() =~= es@.take(i as int - 1));
            if str_eq(es[i - 1].0.as_str(), name) {
                assert(t.last() == es@[i - 1]);
                return Some(&es[i - 1].1);
            }
            i = i - 1;
        }
        assert(es@.take(0) =~= Seq::<(String, LocalRows)>::empty());
        None
    }
}

/// Per-function strictness info produced by the analysis.
pub struct DemandInfo {
    /// function name -> per-parameter strictness (true = forced on every
    /// path).
    pub strict_params: crate::demanded::StrictEnv,
    /// Structured per-field / per-element demand rows.
    pub rows: Rows,
}

/// The run-position argument row of a fully-applied ST array intrinsic.
pub open spec fn st_run_row(name: Seq<char>, argc: nat) -> Option<Seq<Option<DM>>> {
    let row: Option<Seq<Option<DM>>> = if name == "newSTArray"@ || name == "readSTArray"@ {
        Some(seq![Some(DM::Head), Some(DM::Head)])
    } else if name == "writeSTArray"@ || name == "modifySTArray"@ {
        Some(seq![Some(DM::Head), Some(DM::Head), Some(DM::Head)])
    } else if name == "stArrayLength"@ || name == "stArrayToList"@ {
        Some(seq![Some(DM::Head)])
    } else if name == "newSTArrayFromList"@ {
        Some(seq![Some(DM::Elems(Box::new(DM::Head)))])
    } else {
        None
    };
    match row {
        Some(r) => if r.len() == argc { Some(r) } else { None },
        None => None,
    }
}

fn heads(n: usize) -> (r: Vec<Option<Demand>>)
    ensures
        row_model(r@) == Seq::new(n as nat, |i: int| Some(DM::Head)),
{
    let mut out: Vec<Option<Demand>> = Vec::new();
    let mut i: usize = 0;
    while i < n
        invariant
            i <= n,
            out@.len() == i,
            forall|j: int| 0 <= j < i ==> opt_model(#[trigger] out@[j]) == Some(DM::Head),
        decreases n - i,
    {
        out.push(Some(Demand::Head));
        i = i + 1;
    }
    assert(row_model(out@) =~= Seq::new(n as nat, |i: int| Some(DM::Head)));
    out
}

/// Argument demands of a fully-applied ST array intrinsic in run
/// position: the fused runtime forces the array, the index and the stored
/// value on execution.
pub fn st_intrinsic_run_row(name: &str, argc: usize) -> (r: Option<Vec<Option<Demand>>>)
    ensures
        match r {
            Some(v) => st_run_row(name@, argc as nat) == Some(row_model(v@)),
            None => st_run_row(name@, argc as nat) is None,
        },
{
    if str_eq(name, "newSTArray") || str_eq(name, "readSTArray") {
        if argc == 2 {
            let r = heads(2);
            assert(row_model(r@) =~= seq![Some(DM::Head), Some(DM::Head)]);
            return Some(r);
        }
        None
    } else if str_eq(name, "writeSTArray") || str_eq(name, "modifySTArray") {
        if argc == 3 {
            let r = heads(3);
            assert(row_model(r@) =~= seq![Some(DM::Head), Some(DM::Head), Some(DM::Head)]);
            return Some(r);
        }
        None
    } else if str_eq(name, "stArrayLength") || str_eq(name, "stArrayToList") {
        if argc == 1 {
            let r = heads(1);
            assert(row_model(r@) =~= seq![Some(DM::Head)]);
            return Some(r);
        }
        None
    } else if str_eq(name, "newSTArrayFromList") {
        if argc == 1 {
            let mut r: Vec<Option<Demand>> = Vec::new();
            let e = Demand::Elems(Box::new(Demand::Head));
            assert(demand_model(Demand::Head) == DM::Head);
            assert(e@ == DM::Elems(Box::new(demand_model(Demand::Head))));
            r.push(Some(e));
            assert(row_model(r@) =~= seq![Some(DM::Elems(Box::new(DM::Head)))]);
            return Some(r);
        }
        None
    } else {
        None
    }
}

} // verus!
