use lib::embed::{embed_block, extract_source, EmbedMode};

#[test]
fn round_trips_hostile_content() {
    // Closers at several levels, fake markers at line starts, no trailing
    // newline — all must survive byte-exactly.
    let source = "a ]] b ]=] c ]==] d ]===]\n\
                  --[=[ MLL-EMBEDDED-SOURCE-BEGIN\n\
                  MLL-EMBEDDED-SOURCE-END ]=]\n\
                  local __SOURCE_CODE = [=[\n\
                  no trailing newline";
    for mode in [EmbedMode::Comments, EmbedMode::Var] {
        let block = embed_block(source, mode);
        let (out, found) = extract_source(&block).expect("block should extract");
        assert_eq!(out, source, "byte-exact round trip ({:?})", mode);
        assert_eq!(found, mode);
    }
}

#[test]
fn empty_and_trailing_newline_sources() {
    for source in ["", "\n", "x", "x\n", "x\n\n"] {
        for mode in [EmbedMode::Comments, EmbedMode::Var] {
            let block = embed_block(source, mode);
            let (out, _) = extract_source(&block).expect("block should extract");
            assert_eq!(out, source, "source {:?} mode {:?}", source, mode);
        }
    }
}

#[test]
fn plain_lua_yields_error() {
    let err = extract_source("local x = 1\nreturn x\n").unwrap_err();
    assert!(err.contains("no embedded MLL source"), "got: {err}");
}

#[test]
fn comment_block_uses_smallest_absent_level() {
    let block = embed_block("x ]=] y", EmbedMode::Comments);
    assert_eq!(block, "--[==[ MLL-EMBEDDED-SOURCE-BEGIN\nx ]=] y\nMLL-EMBEDDED-SOURCE-END ]==]\n");
}

#[test]
fn var_block_layout() {
    let block = embed_block("print(1)", EmbedMode::Var);
    assert_eq!(block, "local __SOURCE_CODE = [=[\nprint(1)]=]\n");
}

#[test]
fn earliest_block_wins() {
    let lua = "local __SOURCE_CODE = [=[\nfirst]=]\n--[=[ MLL-EMBEDDED-SOURCE-BEGIN\nsecond\nMLL-EMBEDDED-SOURCE-END ]=]\n";
    assert_eq!(extract_source(lua).unwrap(), ("first".to_string(), EmbedMode::Var));
}

#[test]
fn marker_not_at_line_start_is_ignored() {
    let lua = "x = 1 --[=[ MLL-EMBEDDED-SOURCE-BEGIN\nsrc\nMLL-EMBEDDED-SOURCE-END ]=]\n";
    assert!(extract_source(lua).is_err());
}

#[test]
fn var_source_ending_in_closer_prefix_round_trips() {
    // A source ending in `]=` would close a level-1 block early; the level
    // is raised so that it comes back whole.
    for src in ["x]=", "a]=", "]", "]=]]==", "a]==]]="] {
        for mode in [EmbedMode::Var, EmbedMode::Comments] {
            let block = embed_block(src, mode);
            assert_eq!(extract_source(&block).unwrap(), (src.to_string(), mode));
            let with_suffix = format!("{}return {{ ]=] }}\n", block);
            assert_eq!(extract_source(&with_suffix).unwrap(), (src.to_string(), mode));
        }
    }
    assert_eq!(embed_block("x]=", EmbedMode::Var), "local __SOURCE_CODE = [==[\nx]=]==]\n");
}

#[test]
fn lookalike_blocks_after_the_block_do_not_win() {
    let sources = ["", "print(1)\n", "a]]b\n--[==[ x ]==]\n", "x]=", "]==]\nMLL-EMBEDDED-SOURCE-END ]=]"];
    for src in sources {
        for mode in [EmbedMode::Comments, EmbedMode::Var] {
            let block = embed_block(src, mode);
            let other = match mode {
                EmbedMode::Comments => EmbedMode::Var,
                EmbedMode::Var => EmbedMode::Comments,
            };
            let suffix = format!(
                "local x = 1\n{}{}",
                embed_block("decoy", other),
                embed_block("decoy too", mode)
            );
            let text = format!("{}{}", block, suffix);
            assert_eq!(extract_source(&text).unwrap(), (src.to_string(), mode));
        }
    }
}
