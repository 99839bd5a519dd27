//! What each comparison mode keeps of a diagnostic.

use nocompile::compare::{filter, Mode};

/// The fixture every rendering below was compiled from, as normalization
/// spells it in a span header.
const FIXTURE: &str = "tests/ui/a.rs";

const RENDERED: &str = "\
error[E0308]: mismatched types
  --> tests/ui/a.rs:4:17
   |
4  |     let x: u8 = \"s\";
   |            --   ^^^ expected `u8`, found `&str`
   |            |
   |            expected due to this
   |
   = note: this error originates in the macro `m`
help: try this
   |
4  |     let x: u8 = 0;
   |

error: aborting due to 1 previous error
";

#[test]
fn exact_is_the_identity() {
    assert_eq!(filter(RENDERED, Mode::Exact, FIXTURE), RENDERED);
}

#[test]
fn brief_keeps_messages_and_spans_only() {
    assert_eq!(
        filter(RENDERED, Mode::Brief, FIXTURE),
        "error[E0308]: mismatched types\n--> tests/ui/a.rs:4:17\nerror: aborting due to 1 previous error\n"
    );
}

#[test]
fn brief_is_idempotent_so_filtering_both_sides_is_safe() {
    let once = filter(RENDERED, Mode::Brief, FIXTURE);
    assert_eq!(filter(&once, Mode::Brief, FIXTURE), once);
}

#[test]
fn brief_ignores_gutter_width() {
    let narrow = filter("error: x\n --> a.rs:4:1\n", Mode::Brief, FIXTURE);
    let wide = filter("error: x\n     --> a.rs:4:1\n", Mode::Brief, FIXTURE);
    assert_eq!(narrow, wide);
}

const MULTI_LINE: &str = "\
error: MYLIB-E001: expected a struct with named fields
       found a tuple struct
 --> tests/ui/a.rs:6:9
  |
6 |     derive_it!();
  |     ^^^^^^^^^^^^
  |
  = note: this error originates in the macro `derive_it`
";

#[test]
fn brief_keeps_a_message_rustc_printed_over_more_than_one_line() {
    // The author's own text, split where the author split it. Dropping the
    // tail would let two fixtures whose messages differ only after the first
    // line compare equal, which for a macro reporting misuse is most of what
    // the golden was for.
    assert_eq!(
        filter(MULTI_LINE, Mode::Brief, FIXTURE),
        "error: MYLIB-E001: expected a struct with named fields\n       found a tuple struct\n--> tests/ui/a.rs:6:9\n"
    );
}

#[test]
fn brief_on_a_multi_line_message_is_idempotent() {
    let once = filter(MULTI_LINE, Mode::Brief, FIXTURE);
    assert_eq!(filter(&once, Mode::Brief, FIXTURE), once);
}

#[test]
fn brief_stops_keeping_indented_lines_at_the_span_header() {
    // The snippet rows are indented too, and they are exactly what `Brief`
    // exists to drop. Only the run between the message and its span header
    // is the message.
    assert!(!filter(MULTI_LINE, Mode::Brief, FIXTURE).contains("derive_it!();"));
}

#[test]
fn brief_keeps_warnings() {
    assert_eq!(
        filter(
            "warning: unused variable: `x`\n --> a.rs:2:9\n  |\n",
            Mode::Brief,
            FIXTURE,
        ),
        "warning: unused variable: `x`\n--> a.rs:2:9\n"
    );
}

#[test]
fn brief_drops_indented_error_text_inside_a_snippet() {
    assert_eq!(filter("   error: not a header\n", Mode::Brief, FIXTURE), "");
}

/// A `compile_error!("...\n\n...")`, normalized: rustc pads the blank line
/// like the rest of the message, and normalization trims the padding away.
const BLANK_IN_MESSAGE: &str = "\
error: MYLIB-E003: expected a struct with named fields

       help: derive on a struct, not an enum
 --> tests/ui/a.rs:1:1
  |
1 | compile_error!(\"MYLIB-E003: expected a struct with named fields\\n\\nhelp: derive on a struct, not an enum\");
  | ^^^^^^^^^^^^^^^^^^^^^^^^^^^^^^^^^^^^^^^^^^^^^^^^^^^^^^^^^^^^^^^^^^^^^^^^^^^^^^^^^^^^^^^^^^^^^^^^^^^^^^^^^^
";

#[test]
fn brief_keeps_a_message_past_a_blank_line_in_it() {
    assert_eq!(
        filter(BLANK_IN_MESSAGE, Mode::Brief, FIXTURE),
        "error: MYLIB-E003: expected a struct with named fields\n\n       help: derive on a struct, not an enum\n--> tests/ui/a.rs:1:1\n"
    );
}

/// A golden that kept rustc's padding on the blank line -- written by hand,
/// say -- reads the same as one normalization trimmed.
#[test]
fn brief_reads_a_padded_blank_line_in_a_message_as_a_blank_one() {
    let padded = BLANK_IN_MESSAGE.replacen("\n\n", "\n       \n", 1);
    assert_eq!(
        filter(&padded, Mode::Brief, FIXTURE),
        filter(BLANK_IN_MESSAGE, Mode::Brief, FIXTURE)
    );
}

/// A change after the first paragraph of a message is part of the comparison.
#[test]
fn brief_sees_a_change_after_a_blank_line_in_a_message() {
    let changed = BLANK_IN_MESSAGE.replace("not an enum", "not a union");
    for mode in [Mode::Brief, Mode::BriefLocal] {
        assert_ne!(
            filter(BLANK_IN_MESSAGE, mode, FIXTURE),
            filter(&changed, mode, FIXTURE),
            "{}",
            mode.name()
        );
    }
}

#[test]
fn brief_on_a_message_with_a_blank_line_is_idempotent() {
    for mode in [Mode::Brief, Mode::BriefLocal] {
        let once = filter(BLANK_IN_MESSAGE, mode, FIXTURE);
        assert_eq!(filter(&once, mode, FIXTURE), once, "{}", mode.name());
    }
}

/// Only a blank line with more of the message after it is kept. The one
/// rustc ends a diagnostic with is followed by the next heading, or by
/// nothing, and goes as before.
#[test]
fn brief_drops_the_blank_line_that_ends_a_diagnostic() {
    assert_eq!(
        filter("error: a\n\nerror: b\n\n", Mode::Brief, FIXTURE),
        "error: a\nerror: b\n"
    );
}

/// A message whose second line begins with an arrow, as rustc renders
/// `compile_error!("head\n--> not a span")`: padded to the width of
/// `error: `, as every line after a message's first is, and wider than the
/// gutter a real span header is padded to.
const ARROW_IN_MESSAGE: &str = "\
error: head
       --> not a span
 --> tests/ui/a.rs:1:1
  |
1 | compile_error!(\"head\\n--> not a span\");
  | ^^^^^^^^^^^^^^^^^^^^^^^^^^^^^^^^^^^^^^^^
";

#[test]
fn brief_reads_a_message_line_beginning_with_an_arrow_as_text() {
    assert_eq!(
        filter(ARROW_IN_MESSAGE, Mode::Brief, FIXTURE),
        "error: head\n       --> not a span\n--> tests/ui/a.rs:1:1\n"
    );
}

/// `BriefLocal` drops span headers pointing outside the fixture, and
/// `not a span` is not the fixture. Read as a span header, the line would
/// vanish and a change to it would go unseen.
#[test]
fn brief_local_keeps_a_message_line_beginning_with_an_arrow() {
    let local = |text: &str| filter(text, Mode::BriefLocal, FIXTURE);
    assert_eq!(
        local(ARROW_IN_MESSAGE),
        filter(ARROW_IN_MESSAGE, Mode::Brief, FIXTURE)
    );
    assert_ne!(
        local(ARROW_IN_MESSAGE),
        local(&ARROW_IN_MESSAGE.replace("not a span", "something else"))
    );
}

#[test]
fn brief_on_a_message_line_beginning_with_an_arrow_is_idempotent() {
    for mode in [Mode::Brief, Mode::BriefLocal] {
        let once = filter(ARROW_IN_MESSAGE, mode, FIXTURE);
        assert_eq!(filter(&once, mode, FIXTURE), once, "{}", mode.name());
    }
}

/// The padding a message line needs is its own heading's prefix, so a
/// longer prefix moves the line between text and span header.
#[test]
fn brief_measures_the_padding_against_the_headings_own_prefix() {
    // Padded past `error: ` but short of `error[E0080]: `: the span header.
    assert_eq!(
        filter(
            "error[E0080]: x\n         --> tests/ui/a.rs:1:1\n",
            Mode::Brief,
            FIXTURE
        ),
        "error[E0080]: x\n--> tests/ui/a.rs:1:1\n"
    );
    // Padded to `warning: `: text.
    assert_eq!(
        filter("warning: x\n         --> y\n", Mode::Brief, FIXTURE),
        "warning: x\n         --> y\n"
    );
}

/// A panic in a generic `const`, as rustc renders it once something
/// instantiates the constant: the fixture's own span, then one note per
/// constant and function that led there, each in the crate under test.
const CONST_PANIC: &str = "\
error[E0080]: evaluation panicked: a mark must be one of the first 64 fields
  --> tests/ui/a.rs:18:1
   |
18 | declare!(Wide { #[mark] f64 });
   | ^^^^^^^^^^^^^^^^^^^^^^^^^^^^^^ evaluation of `Fields::<Wide>::MASK` failed here
   |
note: erroneous constant encountered
  --> $DIR/src/traits.rs
   |
   |     const MASK: u64 = mask::<T>();
   |                       ^^^^^^^^^^^
note: the above error was encountered while instantiating `fn read::<Wide>`
  --> $DIR/src/parser.rs
   |
   |         T::read(value, self)
   |         ^^^^^^^^^^^^^^^^^^^^
  ::: tests/ui/a.rs:20:5
   |
20 |     read::<Wide>(\"{}\");
   |     ----------------------- in this call
";

#[test]
fn brief_local_keeps_only_the_fixtures_own_spans() {
    assert_eq!(
        filter(CONST_PANIC, Mode::BriefLocal, FIXTURE),
        "error[E0080]: evaluation panicked: a mark must be one of the first 64 fields\n--> tests/ui/a.rs:18:1\n"
    );
}

/// The case the mode exists for: the crate under test reorders the notes,
/// which `Brief` records and this does not.
#[test]
fn brief_local_ignores_where_the_crate_under_test_keeps_its_code() {
    let reordered = CONST_PANIC
        .replace("$DIR/src/traits.rs", "$DIR/src/SWAP")
        .replace("$DIR/src/parser.rs", "$DIR/src/traits.rs")
        .replace("$DIR/src/SWAP", "$DIR/src/parser.rs");
    assert_ne!(
        filter(CONST_PANIC, Mode::Brief, FIXTURE),
        filter(&reordered, Mode::Brief, FIXTURE)
    );
    assert_eq!(
        filter(CONST_PANIC, Mode::BriefLocal, FIXTURE),
        filter(&reordered, Mode::BriefLocal, FIXTURE)
    );
}

/// Everything else `Brief` asserts, this asserts too.
#[test]
fn brief_local_still_sees_a_different_message_or_fixture_span() {
    let local = |text: &str| filter(text, Mode::BriefLocal, FIXTURE);
    assert_ne!(
        local(CONST_PANIC),
        local(&CONST_PANIC.replace("first 64", "first 63"))
    );
    assert_ne!(
        local(CONST_PANIC),
        local(&CONST_PANIC.replace("tests/ui/a.rs:18:1", "tests/ui/a.rs:19:1"))
    );
}

/// A span into a different file whose name only starts like the fixture's
/// is someone else's, not the fixture's.
#[test]
fn brief_local_does_not_take_a_longer_name_for_the_fixture() {
    assert_eq!(
        filter(
            "error: x\n --> tests/ui/a.rs.bak:1:1\n",
            Mode::BriefLocal,
            FIXTURE
        ),
        "error: x\n"
    );
}

/// Filtering both sides is only safe if a filtered golden filters to itself.
#[test]
fn brief_local_is_idempotent() {
    let once = filter(CONST_PANIC, Mode::BriefLocal, FIXTURE);
    assert_eq!(filter(&once, Mode::BriefLocal, FIXTURE), once);
}

/// Switching from `Brief` needs no re-bless, as switching from `Exact` does not.
#[test]
fn brief_local_accepts_a_brief_golden() {
    let brief = filter(CONST_PANIC, Mode::Brief, FIXTURE);
    assert_eq!(
        filter(&brief, Mode::BriefLocal, FIXTURE),
        filter(CONST_PANIC, Mode::BriefLocal, FIXTURE)
    );
}

#[test]
fn mode_default_is_exact() {
    assert_eq!(Mode::default(), Mode::Exact);
}

/// git on Windows hands back a golden the harness never wrote.
#[test]
fn crlf_line_endings_are_unified_before_comparison() {
    assert_eq!(filter("a\r\nb\r\n", Mode::Exact, FIXTURE), "a\nb\n");
}

/// A lone `\r` is content, not a line ending, so it survives.
#[test]
fn a_bare_carriage_return_is_left_alone() {
    assert_eq!(filter("a\rb\n", Mode::Exact, FIXTURE), "a\rb\n");
}

/// A diagnostic need not have a span: a link error, or one about the crate as a
/// whole, goes straight from its message to the gutter. The gutter and the notes
/// beside it are rendering there too.
#[test]
fn brief_drops_the_notes_of_a_diagnostic_without_a_span() {
    let rendered = "error: x\n  |\n  = note: y\n";
    assert_eq!(filter(rendered, Mode::Brief, FIXTURE), "error: x\n");
    assert_eq!(filter(rendered, Mode::BriefLocal, FIXTURE), "error: x\n");

    let linking = "error: linking with `cc` failed: exit status: 1\n  |\n  = note:  \"cc\" \"-m64\"\n  = note: some arguments are omitted\n  = note: undefined reference to `missing`\n\nwarning: unused\n  = note: on by default\n";
    let kept = "error: linking with `cc` failed: exit status: 1\nwarning: unused\n";
    assert_eq!(filter(linking, Mode::Brief, FIXTURE), kept);
    assert_eq!(filter(linking, Mode::BriefLocal, FIXTURE), kept);
    assert_eq!(filter(kept, Mode::Brief, FIXTURE), kept);
}

/// A `::: ` line heads a snippet, wherever it stands.
#[test]
fn brief_drops_a_secondary_header_right_under_a_heading() {
    let rendered = "error[E0308]: mismatched types\n  ::: tests/ui/b.rs:3:4\n  |\n3 | fn f() {}\n";
    let kept = "error[E0308]: mismatched types\n";
    assert_eq!(filter(rendered, Mode::Brief, FIXTURE), kept);
    assert_eq!(filter(rendered, Mode::BriefLocal, FIXTURE), kept);
}

/// A message may still be printed over several lines where no span follows it.
#[test]
fn brief_keeps_a_long_message_of_a_diagnostic_without_a_span() {
    let rendered = "error: first\n       second\n\n       third\n  |\n  = note: y\n";
    let kept = "error: first\n       second\n\n       third\n";
    assert_eq!(filter(rendered, Mode::Brief, FIXTURE), kept);
    assert_eq!(filter(rendered, Mode::BriefLocal, FIXTURE), kept);
}

/// A line padded less than the level prefix is text unless it is rendering.
#[test]
fn brief_keeps_text_that_is_padded_less_than_the_level_prefix() {
    for (rendered, kept) in [
        ("error: x\n  hello\n", "error: x\n  hello\n"),
        ("error: x\n  = warning: y\n", "error: x\n  = warning: y\n"),
        (
            "error[E0080]: x\n hello  \n\n there\n --> tests/ui/a.rs:1:1\n  |\n",
            "error[E0080]: x\n hello\n\n there\n--> tests/ui/a.rs:1:1\n",
        ),
        ("error: x\n  | y\n  hello\n", "error: x\n"),
        ("error: x\n  = help: y\n  hello\n", "error: x\n"),
        ("error: x\n  ::: b.rs:1:1\n  hello\n", "error: x\n"),
        ("hello\n  there\n", ""),
    ] {
        for mode in [Mode::Brief, Mode::BriefLocal] {
            assert_eq!(filter(rendered, mode, FIXTURE), kept);
            assert_eq!(filter(kept, mode, FIXTURE), kept);
        }
    }
}
