use lib::prelude::ondemand_prelude;

const HEADER: &str = "-- MLL Runtime (on-demand subset)\n";

const RUNTIME: &str = "-- runtime\n\
local function a()\n  return b()\nend\n\
-- b helper\n\
local function b()\n  return 1\nend\n\
local c = 3\n\
local p, q\n\
p = function() return q() end\n\
q = function() return 2 end\n";

#[test]
fn a_root_pulls_in_what_it_references() {
    let out = ondemand_prelude(RUNTIME, "print(a())");
    let expected = format!(
        "{}{}{}",
        HEADER,
        "-- runtime\nlocal function a()\n  return b()\nend\n",
        "-- b helper\nlocal function b()\n  return 1\nend\n"
    );
    assert_eq!(out, expected);
}

#[test]
fn a_body_that_mentions_no_prelude_name_gets_the_header_alone() {
    assert_eq!(ondemand_prelude(RUNTIME, "return 1 + 2"), HEADER);
}

#[test]
fn every_chunk_providing_a_needed_name_is_emitted_in_order() {
    let out = ondemand_prelude(RUNTIME, "p()");
    let expected = format!(
        "{}{}",
        HEADER,
        "local p, q\np = function() return q() end\nq = function() return 2 end\n"
    );
    assert_eq!(out, expected);
}

#[test]
fn chunks_come_out_in_runtime_order_whatever_the_body_order() {
    let out = ondemand_prelude(RUNTIME, "c; b()");
    let expected = format!(
        "{}{}{}",
        HEADER,
        "-- b helper\nlocal function b()\n  return 1\nend\n",
        "local c = 3\n"
    );
    assert_eq!(out, expected);
}

/// The column-0 locals a prelude text declares.
fn top_level_locals(text: &str) -> usize {
    text.lines()
        .filter(|l| l.starts_with("local "))
        .map(|l| {
            let rest = &l["local ".len()..];
            if rest.starts_with("function ") {
                1
            } else {
                let decl = rest.split(|c| c == '=' || c == ';').next().unwrap_or("");
                decl.split(',').filter(|s| !s.trim().is_empty()).count()
            }
        })
        .sum()
}

#[test]
fn prelude_subset_is_complete_for_every_root() {
    let names = ["a", "b", "c", "p", "q"];
    for name in names {
        let out = ondemand_prelude(RUNTIME, name);
        assert!(out.starts_with("-- MLL Runtime (on-demand subset)"), "root {}", name);
        assert!(top_level_locals(&out) <= 200, "root {} pulls in too many locals", name);
        // Every prelude name the output mentions is defined in it.
        for other in names {
            let mentioned = out
                .split(|c: char| !(c == '_' || c.is_ascii_alphanumeric()))
                .any(|t| t == other);
            if mentioned {
                let defined = out.lines().any(|l| {
                    l.starts_with(&format!("local function {}(", other))
                        || l.starts_with(&format!("local {} ", other))
                        || (l.starts_with("local ") && l.contains(&format!(" {},", other)))
                        || (l.starts_with("local ") && l.ends_with(&format!(", {}", other)))
                        || l.starts_with(&format!("{} = ", other))
                });
                assert!(defined, "root {} leaves {} undefined", name, other);
            }
        }
    }
}

#[test]
fn comment_lines_after_the_last_definition_stay_with_it() {
    let rt = "local x = 1\n-- trailing\n";
    assert_eq!(ondemand_prelude(rt, "x"), format!("{}{}", HEADER, rt));
}
