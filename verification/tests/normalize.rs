//! What a golden holds of a diagnostic.

use nocompile::normalize::{called, placeholder, points_into, reserved, Normalizer};
use nocompile::path::{Component, PathBuf};
use nocompile::scratch::Dependency;

const FIXTURE: &str = "tests/ui/a.rs";
const BIN: &str = "f_tests_ui_a_rs_0123456789abcdef";

fn path(text: &str) -> PathBuf {
    PathBuf::new(text)
}

fn dependency(name: &str, at: &str) -> Dependency {
    Dependency {
        name: name.to_string(),
        path: path(at),
    }
}

fn normalizer_on(fold: bool) -> Normalizer {
    Normalizer::new(
        &path("/w/host/target/nocompile-scratch/host"),
        &path(&format!(
            "/w/host/target/nocompile-scratch/host/project/src/bin/{BIN}.rs"
        )),
        BIN,
        &path("/w/host"),
        &vec![
            dependency("my-core", "/w/my-core"),
            dependency("inner", "/w/host/inner"),
        ],
        &Some(path("/home/me/.cargo")),
        fold,
    )
}

fn normalized(text: &str) -> String {
    normalizer_on(false).normalize(text, FIXTURE)
}

fn eliding(text: &str) -> String {
    normalizer_on(false)
        .eliding_implementors(true)
        .normalize(text, FIXTURE)
}

#[test]
fn a_placeholder_is_the_name_in_upper_case() {
    assert_eq!(placeholder("my-crate"), "$MY_CRATE");
    assert_eq!(placeholder(""), "$");
}

#[test]
fn every_other_placeholder_is_reserved() {
    for name in [
        "$DIR",
        "$SCRATCH",
        "$CARGO_REGISTRY",
        "$CARGO_HOME",
        "$RUST",
        "$CRATE",
        "$N",
        "$IMPLEMENTORS",
    ] {
        assert!(reserved(name), "{name}");
    }
    assert!(!reserved("$MY_CRATE"));
    assert!(!reserved("$"));
}

#[test]
fn a_place_in_the_fixture_is_its_path_alone_or_before_a_colon() {
    let target = |text: &str| text.chars().collect::<Vec<char>>();
    assert!(points_into(&target("tests/ui/a.rs"), FIXTURE));
    assert!(points_into(&target("tests/ui/a.rs:1:2"), FIXTURE));
    assert!(!points_into(&target("tests/ui/a.rs.bak:1:2"), FIXTURE));
}

/// The generated source reads as the fixture, by either spelling of its path.
#[test]
fn the_generated_source_reads_as_the_fixture() {
    assert_eq!(
        normalized(&format!("error: x\n --> src/bin/{BIN}.rs:2:18\n")),
        "error: x\n --> tests/ui/a.rs:2:18\n"
    );
    assert_eq!(
        normalized(&format!(
            "error: x\n --> /w/host/target/nocompile-scratch/host/project/src/bin/{BIN}.rs:2:18\n"
        )),
        "error: x\n --> tests/ui/a.rs:2:18\n"
    );
}

/// A path that merely looks like the generated one is left alone.
#[test]
fn a_path_that_only_resembles_the_generated_one_is_left_alone() {
    let text = "error: x\n --> tests/ui/a.rs:2:18\n  |\n2 |     let _x: u8 = \"src/bin/f_not_ours.rs\";\n";
    assert_eq!(normalized(text), text);
}

#[test]
fn the_generated_crate_has_a_placeholder() {
    assert_eq!(
        normalized(&format!(
            "error[E0601]: `main` function not found in crate `{BIN}`\n"
        )),
        "error[E0601]: `main` function not found in crate `$CRATE`\n"
    );
    // Only where it stands whole.
    let longer = format!("error: `{BIN}_more`\n");
    assert_eq!(normalized(&longer), longer);
}

/// Every known path has its placeholder, and the longest one that stands
/// there wins.
#[test]
fn known_paths_have_placeholders() {
    for (given, shown) in [
        ("/w/host/src/lib.rs", "$DIR/src/lib.rs"),
        ("/w/host", "$DIR"),
        (
            "/w/host/target/nocompile-scratch/host/target/debug",
            "$SCRATCH/target/debug",
        ),
        ("/w/my-core/src/lib.rs", "$MY_CORE/src/lib.rs"),
        ("/w/host/inner/src/lib.rs", "$DIR/inner/src/lib.rs"),
        (
            "/home/me/.cargo/registry/src/index.crates.io-1949/dep-0.1.6/src/lib.rs",
            "$CARGO_REGISTRY/dep-0.1.6/src/lib.rs",
        ),
        ("/home/me/.cargo/git/x", "$CARGO_HOME/git/x"),
        (
            "/home/me/.rustup/toolchains/stable-x86_64/lib/rustlib/src/rust/library/core/src/panic.rs",
            "$RUST/core/src/panic.rs",
        ),
        (
            "/usr/lib/rustlib/src/rust/src/libcore/panic.rs",
            "$RUST/libcore/panic.rs",
        ),
        (
            "/rustc/0123456789abcdef/library/core/src/panic.rs",
            "$RUST/core/src/panic.rs",
        ),
    ] {
        assert_eq!(
            normalized(&format!("error: in `{given}`\n")),
            format!("error: in `{shown}`\n")
        );
    }
}

/// Anchored on a component boundary: a sibling checkout is another path.
#[test]
fn a_sibling_is_not_rewritten() {
    for text in [
        "error: in `/w/my-core-helper/src/lib.rs`\n",
        "error: in `/w/hosted/src/lib.rs`\n",
        "error: in `/x/w/host/src/lib.rs`\n",
    ] {
        assert_eq!(normalized(text), text);
    }
}

/// A span outside the fixture loses its position, the numbers beside its
/// snippet, and the width they gave the gutter.
#[test]
fn only_the_fixture_keeps_its_positions() {
    let rendered = format!(
        "\
error[E0277]: the trait bound `&str: Small` is not satisfied
   --> src/bin/{BIN}.rs:2:20
    |
2   |     my_core::take(\"not small\");
    |     ------------- ^^^^^^^^^^^ unsatisfied
    |
note: required by a bound in `take`
   --> /w/my-core/src/lib.rs:508:16
    |
508 | pub fn take<T: Small>(_value: T) {{}}
    |                ^^^^^ required by this bound in `take`
    = note: more

"
    );
    assert_eq!(
        normalized(&rendered),
        "\
error[E0277]: the trait bound `&str: Small` is not satisfied
 --> tests/ui/a.rs:2:20
  |
2 |     my_core::take(\"not small\");
  |     ------------- ^^^^^^^^^^^ unsatisfied
  |
note: required by a bound in `take`
 --> $MY_CORE/src/lib.rs
  |
  | pub fn take<T: Small>(_value: T) {}
  |                ^^^^^ required by this bound in `take`
  = note: more
"
    );
}

/// A suggestion goes back to the file of the first snippet, and a snippet added
/// to another is from the file it names.
#[test]
fn a_snippet_is_from_the_file_it_stands_under() {
    let rendered = "\
error[E0080]: evaluation panicked
  --> tests/ui/a.rs:18:1
   |
18 | declare!(Wide);
   | ^^^^^^^^^^^^^^
   |
note: instantiating
  --> /w/host/src/parser.rs:44:9
   |
44 |         T::read(value, self)
   |         ^^^^^^^^^^^^^^^^^^^^
  ::: tests/ui/a.rs:20:5
   |
20 |     read::<Wide>(\"{}\");
   |     ------------------ in this call
help: try
   |
18 + declare!(Narrow);
   |
";
    assert_eq!(
        normalized(rendered),
        "\
error[E0080]: evaluation panicked
  --> tests/ui/a.rs:18:1
   |
18 | declare!(Wide);
   | ^^^^^^^^^^^^^^
   |
note: instantiating
  --> $DIR/src/parser.rs
   |
   |         T::read(value, self)
   |         ^^^^^^^^^^^^^^^^^^^^
  ::: tests/ui/a.rs:20:5
   |
20 |     read::<Wide>(\"{}\");
   |     ------------------ in this call
help: try
   |
18 + declare!(Narrow);
   |
"
    );
}

/// A later line of a message is its author's text, whatever it looks like.
#[test]
fn the_text_of_a_message_is_left_alone() {
    let text = "\
error: head
       --> not a span:1:2
        12 | not a row
   --> tests/ui/a.rs:1:1
";
    assert_eq!(
        normalized(text),
        "\
error: head
       --> not a span:1:2
        12 | not a row
 --> tests/ui/a.rs:1:1
"
    );
}

#[test]
fn lines_are_stripped_and_the_text_ends_in_one_newline() {
    assert_eq!(
        normalized("error: a  \r\n\t\r\n\r\nerror: b\r\n\r\n\r\n"),
        "error: a\n\n\nerror: b\n"
    );
    assert_eq!(normalized("error: a"), "error: a\n");
    assert_eq!(normalized(" \n\n"), "");
}

const LIST: &str = "\
error[E0277]: the trait bound is not satisfied
  = help: the following other types implement trait `Pod`:
            u8
            u16
          and 12 others
note: more
";

#[test]
fn the_count_of_a_list_has_a_placeholder() {
    assert_eq!(
        normalized(LIST),
        "\
error[E0277]: the trait bound is not satisfied
  = help: the following other types implement trait `Pod`:
            u8
            u16
          and $N others
note: more
"
    );
}

#[test]
fn an_elided_list_is_one_line() {
    assert_eq!(
        eliding(LIST),
        "\
error[E0277]: the trait bound is not satisfied
  = help: the following other types implement trait `Pod`:
            $IMPLEMENTORS
note: more
"
    );
}

/// A list of nine is cut to eight, and one of eight is left alone.
#[test]
fn a_long_list_is_cut_to_eight() {
    let list = |n: usize| {
        let mut text = "error: x\n  = help: the following types implement trait `Pod`:\n".to_string();
        for i in 0..n {
            text.push_str(&format!("            T{i}\n"));
        }
        text
    };
    assert_eq!(normalized(&list(8)), list(8));
    assert_eq!(
        normalized(&list(9)),
        format!("{}          and $N others\n", list(8))
    );
}

/// Where `\` separates components, a known path is read with either, and what
/// follows it is written with `/`. Anything else keeps its `\`.
#[test]
fn backslashes_are_folded_in_known_paths_only() {
    let text = "error: \\d in `/w\\host\\src\\lib.rs` and `C:\\x`\n";
    assert_eq!(
        normalizer_on(true).normalize(text, FIXTURE),
        "error: \\d in `$DIR/src/lib.rs` and `C:\\x`\n"
    );
    assert_eq!(normalized(text), text);
}

/// What stands behind an arrow is one path, whatever characters it is made of.
#[test]
fn a_span_header_is_one_path() {
    for (given, shown) in [
        ("/w/my-core/src/lib.rs:3:4", "$MY_CORE/src/lib.rs"),
        ("/w/my-core:3:4", "$MY_CORE"),
        ("/w/my-core/a dir/(b)/lib.rs:3:4", "$MY_CORE/a dir/(b)/lib.rs"),
        ("/w/my-core+x/lib.rs:3:4", "/w/my-core+x/lib.rs"),
        ("/w/my-core@x/lib.rs:3:4", "/w/my-core@x/lib.rs"),
        ("/w/my-core copy/lib.rs:3:4", "/w/my-core copy/lib.rs"),
        ("/w/my-core (copy)/lib.rs:3:4", "/w/my-core (copy)/lib.rs"),
        ("/w/my-core[1]/lib.rs:3:4", "/w/my-core[1]/lib.rs"),
        ("/w/my-core,x/lib.rs:3:4", "/w/my-core,x/lib.rs"),
        ("/v /w/my-core/lib.rs:3:4", "/v /w/my-core/lib.rs"),
        (
            "/home/me/.cargo/registry/src/an index+1/dep-0.1.6/src/lib.rs:3:4",
            "$CARGO_REGISTRY/dep-0.1.6/src/lib.rs",
        ),
    ] {
        for arrow in ["-->", ":::"] {
            assert_eq!(
                normalized(&format!("error: x\n {arrow} {given}\n")),
                format!("error: x\n {arrow} {shown}\n")
            );
        }
    }
}

/// A sibling is another path, by whatever character its name goes on with.
#[test]
fn a_sibling_is_not_rewritten_in_running_text_either() {
    for text in [
        "error: in /w/my-core+x/src/lib.rs\n",
        "error: in /w/my-core@x/src/lib.rs\n",
        "error: in /w/my-core.old/src/lib.rs\n",
        "error: in `/w/my-core (copy)/src/lib.rs`\n",
        "error: in \"/w/my-core copy/src/lib.rs\"\n",
        "error: in `/w/my-core[1]`\n",
        "error: in '/w/my-core {1}/a'\n",
    ] {
        assert_eq!(normalized(text), text);
    }
    for (text, shown) in [
        ("error: in /w/my-core, and\n", "error: in $MY_CORE, and\n"),
        ("error: in (/w/my-core)\n", "error: in ($MY_CORE)\n"),
        ("error: /w/my-core is\n", "error: $MY_CORE is\n"),
        (
            "error: in `/w/my-core:/w/host`\n",
            "error: in `$MY_CORE:$DIR`\n",
        ),
    ] {
        assert_eq!(normalized(text), shown);
    }
}

/// Wherever the toolchain is installed, a span into its source begins with its
/// placeholder.
#[test]
fn the_toolchain_can_be_installed_anywhere() {
    for directory in [
        "",
        "/usr",
        "/home/me/.rustup/toolchains/stable-x86_64",
        "/Users/John Doe/.rustup/toolchains/stable-aarch64",
        "/opt/rust (nightly), 1+2",
        "relative to/nothing",
        "/x/lib/rustlib/src/rust/library_old",
        "/x/lib/rustlib/src/rust/library/y",
        "/rustc/0123/library",
        "C:/Users/me/.rustup",
    ] {
        for library in ["library", "src"] {
            for rest in ["/core/src/panic.rs", ""] {
                assert_eq!(
                    normalized(&format!(
                        "error: x\n --> {directory}/lib/rustlib/src/rust/{library}{rest}:3:4\n"
                    )),
                    format!("error: x\n --> $RUST{rest}\n")
                );
            }
        }
    }
}

/// In running text the path begins at its drive, or behind an opening quote.
#[test]
fn the_toolchain_is_recognized_in_running_text() {
    let on_windows = normalizer_on(true);
    assert_eq!(
        on_windows.normalize(
            "error: in C:\\Users\\me\\.rustup\\lib\\rustlib\\src\\rust\\library\\a, and\n",
            FIXTURE
        ),
        "error: in $RUST/a, and\n"
    );
    assert_eq!(
        on_windows.normalize(
            "error: in `C:\\Users\\John Doe\\lib\\rustlib\\src\\rust\\library\\a\\b`\n",
            FIXTURE
        ),
        "error: in `$RUST/a/b`\n"
    );
    assert_eq!(
        normalized("error: in `/Users/John Doe/lib/rustlib/src/rust/library/a` and `b`\n"),
        "error: in `$RUST/a` and `b`\n"
    );
    // Another path than the toolchain's.
    let text = "error: in /x/lib/rustlib/src/rust/library2/a\n";
    assert_eq!(normalized(text), text);
}

/// A golden blessed on one platform matches on another.
#[test]
fn a_span_header_reads_the_same_on_every_platform() {
    let drive = |names: &[&str]| {
        let mut components = vec![Component::Prefix(b"C:".to_vec()), Component::RootDir];
        for name in names {
            components.push(Component::Normal(name.as_bytes().to_vec()));
        }
        PathBuf { components }
    };
    let there = Normalizer::new(
        &drive(&["w", "target", "host"]),
        &drive(&["w", "target", "host", "src", "bin", "f.rs"]),
        BIN,
        &drive(&["w", "host"]),
        &vec![Dependency {
            name: "my-core".to_string(),
            path: drive(&["w", "my core"]),
        }],
        &Some(drive(&["Users", "John Doe", ".cargo"])),
        true,
    );
    for (here, spelled) in [
        ("/w/my-core/a dir/b.rs", "C:\\w\\my core\\a dir\\b.rs"),
        ("/w/host/src/lib.rs", "C:\\w\\host\\src/lib.rs"),
        (
            "/home/me/.cargo/registry/src/index/dep/src/lib.rs",
            "C:\\Users\\John Doe\\.cargo\\registry\\src\\index\\dep\\src\\lib.rs",
        ),
        (
            "/usr/lib/rustlib/src/rust/library/a/b.rs",
            "C:\\Users\\John Doe\\.rustup\\lib\\rustlib\\src\\rust\\library\\a\\b.rs",
        ),
        ("/rustc/0123/library/a/b.rs", "/rustc/0123\\library\\a\\b.rs"),
    ] {
        assert_eq!(
            there.normalize(&format!("error: x\n --> {spelled}:3:4\n"), FIXTURE),
            normalized(&format!("error: x\n --> {here}:3:4\n"))
        );
    }
}

/// Upper case as Unicode has it, so a name can come out as a reserved placeholder
/// that no ASCII letter is missing from.
#[test]
fn a_placeholder_is_in_upper_case_whatever_the_script() {
    assert_eq!(placeholder("caf\u{e9}-au-lait"), "$CAF\u{c9}_AU_LAIT");
    assert_eq!(placeholder("stra\u{df}e"), "$STRASSE");
    assert_eq!(placeholder("d\u{131}r"), "$DIR");
    assert_eq!(called("A-B_c"), "$A_B_c");
}
