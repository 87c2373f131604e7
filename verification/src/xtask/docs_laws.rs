//! Laws of generated documentation.

use crate::text::{self, Text};
use crate::xtask::docs_cli::{self, Arg, ArgAction, Command};
use crate::xtask::splicer;
use vstd::prelude::*;

verus! {

/// A table has a row for each argument that belongs in it and none for another, in the
/// order of the arguments, each on a line of its own. The table of positional arguments
/// has those; that of the options has the others, but for help and version.
pub proof fn law_a_table_has_a_row_for_each_argument(arguments: Seq<Arg>, a: Arg)
    ensures
        a.positional ==> docs_cli::rows(arguments.push(a), true) == docs_cli::rows(arguments, true)
            + docs_cli::positional_row(a) + "\n"@,
        a.positional ==> docs_cli::rows(arguments.push(a), false) == docs_cli::rows(
            arguments,
            false,
        ),
        !a.positional ==> docs_cli::rows(arguments.push(a), true) == docs_cli::rows(
            arguments,
            true,
        ),
        !a.positional && !docs_cli::implicit(a) ==> docs_cli::rows(arguments.push(a), false)
            == docs_cli::rows(arguments, false) + docs_cli::option_row(a) + "\n"@,
        !a.positional && docs_cli::implicit(a) ==> docs_cli::rows(arguments.push(a), false)
            == docs_cli::rows(arguments, false),
        docs_cli::rows(Seq::empty(), true).len() == 0,
        docs_cli::rows(Seq::empty(), false).len() == 0,
{
    assert(arguments.push(a).drop_last() =~= arguments);
}

/// Help and version are implied, and an argument takes a value by its action.
pub proof fn law_an_argument_acts_as_it_says(a: Arg)
    ensures
        docs_cli::implicit(a) <==> a.action is Help || a.action is HelpShort
            || a.action is HelpLong || a.action is Version,
        docs_cli::valued(a) <==> a.action is TakeValue || a.action is TakeValues,
{
}

/// The row of a positional argument tells its name as code, whether it is required, and
/// what it is for.
pub proof fn law_a_positional_row_tells_what_is_required(a: Arg)
    ensures
        ({
            let name = if a.value_name is Some {
                a.value_name->0@
            } else {
                a.id@
            };
            let required = if a.required {
                "yes"@
            } else {
                "no"@
            };
            docs_cli::positional_row(a) == "| "@ + ("`"@ + name + "`"@) + " | "@ + required
                + " | "@ + docs_cli::description(a) + " |"@
        }),
{
}

/// An option is written by its letter, by its word, or by both with a comma between them,
/// and with the name of its value where it takes one.
pub proof fn law_an_option_is_written_as_it_is_used(a: Arg)
    ensures
        a.short is Some && a.long is Some ==> docs_cli::spellings(a).len() == 2
            && docs_cli::spellings(a)[0] == "`-"@ + seq![a.short->0] + "`"@ && docs_cli::spellings(
            a,
        )[1] == "`--"@ + a.long->0@ + "`"@,
        a.short is Some && a.long is None ==> docs_cli::spellings(a).len() == 1
            && docs_cli::spellings(a)[0] == "`-"@ + seq![a.short->0] + "`"@,
        a.short is None && a.long is Some ==> docs_cli::spellings(a).len() == 1
            && docs_cli::spellings(a)[0] == "`--"@ + a.long->0@ + "`"@,
        a.short is None && a.long is None ==> docs_cli::spellings(a).len() == 1
            && docs_cli::spellings(a)[0] == "`"@ + a.id@ + "`"@,
        !docs_cli::valued(a) ==> docs_cli::option_name(a) == text::joined(
            docs_cli::spellings(a),
            ", "@,
        ),
        docs_cli::valued(a) && a.value_name is Some ==> docs_cli::option_name(a) == text::joined(
            docs_cli::spellings(a),
            ", "@,
        ) + (" `<"@ + a.value_name->0@ + ">`"@),
        docs_cli::option_row(a) == "| "@ + docs_cli::option_name(a) + " | "@
            + docs_cli::default_text(a) + " | "@ + docs_cli::description(a) + " |"@,
{
}

/// The default of an option is told: its values as code, or what a switch or a counter is
/// without being used.
pub proof fn law_defaults_are_told(a: Arg)
    ensures
        a.default_values@.len() == 1 ==> docs_cli::default_text(a) == "`"@
            + a.default_values@[0]@ + "`"@,
        a.default_values@.len() == 0 && a.action is SetTrue ==> docs_cli::default_text(a)
            == "`false`"@,
        a.default_values@.len() == 0 && a.action is SetFalse ==> docs_cli::default_text(a)
            == "`true`"@,
        a.default_values@.len() == 0 && a.action is Count ==> docs_cli::default_text(a) == "`0`"@,
{
    if a.default_values@.len() == 1 {
        let codes = docs_cli::default_codes(text::texts(a.default_values@));
        assert(codes.len() == 1);
        assert(text::texts(a.default_values@)[0] == a.default_values@[0]@);
        assert(codes[0] == docs_cli::code(a.default_values@[0]@));
        assert(text::joined(codes, ", "@) == codes[0]);
    }
}

/// The documentation of a command has a table of its positional arguments exactly when it
/// has some, and one of its options likewise.
pub proof fn law_a_table_is_there_when_needed(cmd: Command, is_root: bool)
    ensures
        docs_cli::has_rows(cmd.arguments@, true) && !docs_cli::has_rows(cmd.arguments@, false)
            ==> docs_cli::rendered(cmd, is_root)
            == "**Positional arguments**\n\n| Argument | Required | Description |\n|----------|----------|-------------|\n"@
            + docs_cli::rows(cmd.arguments@, true) + "\n"@,
        !docs_cli::has_rows(cmd.arguments@, true) && docs_cli::has_rows(cmd.arguments@, false)
            ==> docs_cli::rendered(cmd, is_root)
            == "**Flags**\n\n| Flag | Default | Description |\n|------|---------|-------------|\n"@
            + docs_cli::rows(cmd.arguments@, false),
        !docs_cli::has_rows(cmd.arguments@, true) && !docs_cli::has_rows(cmd.arguments@, false)
            && !is_root ==> docs_cli::rendered(cmd, is_root)
            == "This subcommand takes no arguments or flags.\n"@,
        docs_cli::has_rows(cmd.arguments@, true) <==> exists|i: int|
            0 <= i < cmd.arguments@.len() && (#[trigger] cmd.arguments@[i]).positional,
        docs_cli::has_rows(cmd.arguments@, false) <==> exists|i: int|
            0 <= i < cmd.arguments@.len() && !(#[trigger] cmd.arguments@[i]).positional
                && !docs_cli::implicit(cmd.arguments@[i]),
{
    let list = cmd.arguments@;
    if docs_cli::has_rows(list, true) && !docs_cli::has_rows(list, false) {
        let table = "**Positional arguments**\n\n| Argument | Required | Description |\n|----------|----------|-------------|\n"@
            + docs_cli::rows(list, true) + "\n"@;
        assert(table + Seq::<char>::empty() =~= table);
    }
    if !docs_cli::has_rows(list, true) && docs_cli::has_rows(list, false) {
        let table = "**Flags**\n\n| Flag | Default | Description |\n|------|---------|-------------|\n"@
            + docs_cli::rows(list, false);
        assert(Seq::<char>::empty() + table =~= table);
    }
    if exists|i: int| 0 <= i < list.len() && (#[trigger] list[i]).positional {
        let i = choose|i: int| 0 <= i < list.len() && (#[trigger] list[i]).positional;
        assert(docs_cli::listed(list[i], true));
    }
    if docs_cli::has_rows(list, true) {
        let i = choose|i: int| 0 <= i < list.len() && docs_cli::listed(#[trigger] list[i], true);
        assert(list[i].positional);
    }
    if exists|i: int|
        0 <= i < list.len() && !(#[trigger] list[i]).positional && !docs_cli::implicit(list[i]) {
        let i = choose|i: int|
            0 <= i < list.len() && !(#[trigger] list[i]).positional && !docs_cli::implicit(list[i]);
        assert(docs_cli::listed(list[i], false));
    }
    if docs_cli::has_rows(list, false) {
        let i = choose|i: int| 0 <= i < list.len() && docs_cli::listed(#[trigger] list[i], false);
        assert(!list[i].positional);
    }
}

/// Renewing goes through the subcommands one after the other: each that is not hidden has
/// its block replaced, under the name of the root and its own; a hidden one is passed
/// over; and the first that cannot be replaced ends it.
pub proof fn law_every_visible_command_is_renewed(
    root: Text,
    subs: Seq<Command>,
    sub: Command,
    doc: Text,
)
    ensures
        docs_cli::renewed(root, Seq::empty(), doc) == Ok::<Text, (Text, Text)>(doc),
        docs_cli::renewed(root, subs, doc) is Err ==> docs_cli::renewed(root, subs.push(sub), doc)
            == docs_cli::renewed(root, subs, doc),
        docs_cli::renewed(root, subs, doc) is Ok && sub.hidden ==> docs_cli::renewed(
            root,
            subs.push(sub),
            doc,
        ) == docs_cli::renewed(root, subs, doc),
        docs_cli::renewed(root, subs, doc) is Ok && !sub.hidden ==> {
            let marker = root + " "@ + sub.name@;
            let done = splicer::spliced(
                marker,
                docs_cli::rendered(sub, false),
                docs_cli::renewed(root, subs, doc)->Ok_0,
            );
            &&& done is Ok ==> docs_cli::renewed(root, subs.push(sub), doc) == Ok::<
                Text,
                (Text, Text),
            >(done->Ok_0)
            &&& done is Err ==> docs_cli::renewed(root, subs.push(sub), doc) is Err
        },
{
    assert(subs.push(sub).drop_last() =~= subs);
}

/// All tables are renewed beginning with that of the root command.
pub proof fn law_the_root_comes_first(root: Command, subs: Seq<Command>, doc: Text)
    ensures
        ({
            let first = splicer::spliced(root.name@, docs_cli::rendered(root, true), doc);
            &&& first is Err ==> docs_cli::regenerated(root, subs, doc) is Err
            &&& first is Ok ==> docs_cli::regenerated(root, subs, doc) == docs_cli::renewed(
                root.name@,
                subs,
                first->Ok_0,
            )
        }),
{
}

/// What is spliced in stands between the two markers of its block, on lines of its own,
/// without the line feeds around it.
pub proof fn law_content_stands_between_its_markers(name: Text, content: Text, text: Text)
    requires
        splicer::spliced(name, content, text) is Ok,
    ensures
        ({
            let r = splicer::spliced(name, content, text)->Ok_0;
            let begin = "<!-- BEGIN: "@ + name + " -->"@;
            let end = "<!-- END: "@ + name + " -->"@;
            let inner = splicer::bare(content);
            let body = if inner.len() == 0 {
                "\n"@
            } else {
                "\n"@ + inner + "\n\n"@
            };
            exists|b: int|
                0 <= b && b + begin.len() + body.len() + end.len() <= r.len()
                    && #[trigger] r.subrange(b, b + begin.len()) == begin && r.subrange(
                    b + begin.len(),
                    b + begin.len() + body.len(),
                ) == body && r.subrange(
                    b + begin.len() + body.len(),
                    b + begin.len() + body.len() + end.len(),
                ) == end
        }),
{
    let begin = splicer::begin_marker(name);
    let end = splicer::end_marker(name);
    let body = splicer::block_body(content);
    let r = splicer::spliced(name, content, text)->Ok_0;
    text::lemma_find(text, begin, 0);
    let b = text::find(text, begin)->Some_0;
    let from = b + begin.len();
    text::lemma_find(text, end, from);
    let (x, to) = splicer::block(name, text)->Some_0;
    assert(x == from);
    assert(text::occurs_at(text, begin, b));
    assert(text::occurs_at(text, end, to));
    assert(r == text.take(from) + body + text.skip(to));
    assert(r.subrange(b, b + begin.len()) =~= text.subrange(b, b + begin.len()));
    assert(r.subrange(b + begin.len(), b + begin.len() + body.len()) =~= body);
    assert(r.subrange(
        b + begin.len() + body.len(),
        b + begin.len() + body.len() + end.len(),
    ) =~= text.subrange(to, to + end.len()));
}

/// Content keeps everything but the line feeds at its ends.
pub proof fn law_only_line_feeds_are_taken_off(content: Text)
    ensures
        exists|a: int, b: int|
            0 <= a <= b <= content.len() && splicer::bare(content) == #[trigger] content.subrange(
                a,
                b,
            ) && feeds_only(content.subrange(0, a)) && feeds_only(
                content.subrange(b, content.len() as int),
            ),
        splicer::bare(content).len() > 0 ==> splicer::bare(content)[0] != '\n' && splicer::bare(
            content,
        )[splicer::bare(content).len() - 1] != '\n',
{
    lemma_feeds_leading(content);
    let lead = splicer::strip_leading(content);
    lemma_feeds_trailing(lead);
    let r = splicer::bare(content);
    let a = content.len() - lead.len();
    let b = a + r.len();
    assert(r =~= content.subrange(a, b));
    assert(content.subrange(0, a) =~= content.take(a));
    assert(content.subrange(b, content.len() as int) =~= lead.skip(r.len() as int));
    if r.len() > 0 {
        assert(r[0] == lead[0]);
    }
}

/// Whether a text is line feeds and nothing else.
pub open spec fn feeds_only(s: Text) -> bool {
    forall|i: int| 0 <= i < s.len() ==> #[trigger] s[i] == '\n'
}

proof fn lemma_feeds_leading(s: Text)
    ensures
        splicer::strip_leading(s).len() <= s.len(),
        splicer::strip_leading(s) == s.skip(s.len() - splicer::strip_leading(s).len()),
        feeds_only(s.take(s.len() - splicer::strip_leading(s).len())),
        splicer::strip_leading(s).len() > 0 ==> splicer::strip_leading(s)[0] != '\n',
    decreases s.len(),
{
    if s.len() > 0 && s[0] == '\n' {
        let rest = s.drop_first();
        lemma_feeds_leading(rest);
        let r = splicer::strip_leading(s);
        assert(r =~= s.skip(s.len() - r.len()));
        let front = s.take(s.len() - r.len());
        assert forall|i: int| 0 <= i < front.len() implies #[trigger] front[i] == '\n' by {
            if i > 0 {
                assert(rest.take(rest.len() - r.len())[i - 1] == s[i]);
            }
        }
    } else {
        assert(s.skip(0) =~= s);
    }
}

proof fn lemma_feeds_trailing(s: Text)
    ensures
        splicer::strip_trailing(s).len() <= s.len(),
        splicer::strip_trailing(s) == s.take(splicer::strip_trailing(s).len() as int),
        feeds_only(s.skip(splicer::strip_trailing(s).len() as int)),
        splicer::strip_trailing(s).len() > 0 ==> splicer::strip_trailing(
            s,
        )[splicer::strip_trailing(s).len() - 1] != '\n',
    decreases s.len(),
{
    if s.len() > 0 && s.last() == '\n' {
        let rest = s.drop_last();
        lemma_feeds_trailing(rest);
        let r = splicer::strip_trailing(s);
        assert(r =~= s.take(r.len() as int));
        let back = s.skip(r.len() as int);
        assert forall|i: int| 0 <= i < back.len() implies #[trigger] back[i] == '\n' by {
            if i < rest.len() - r.len() {
                assert(rest.skip(r.len() as int)[i] == s[r.len() + i]);
            }
        }
    } else {
        assert(s.take(s.len() as int) =~= s);
    }
}

/// Two documents differ at a line where the lines are not the same, or only one has it:
/// the first one's line is told with a minus, the second one's with a plus. Lines that
/// are the same are not told.
pub proof fn law_only_lines_that_differ_are_told(a: Seq<Text>, b: Seq<Text>, i: int, n: nat)
    requires
        0 <= i,
        i < a.len() || i < b.len(),
    ensures
        i < a.len() && i < b.len() && a[i] == b[i] ==> docs_cli::difference_at(a, b, i).len() == 0,
        i < a.len() && i < b.len() && a[i] != b[i] ==> docs_cli::difference_at(a, b, i) == "- "@
            + a[i] + "\n+ "@ + b[i] + "\n"@,
        i < a.len() && i >= b.len() ==> docs_cli::difference_at(a, b, i) == "- "@ + a[i] + "\n"@,
        i >= a.len() && i < b.len() ==> docs_cli::difference_at(a, b, i) == "+ "@ + b[i] + "\n"@,
        docs_cli::differences(a, b, n + 1) == docs_cli::differences(a, b, n)
            + docs_cli::difference_at(a, b, n as int),
        docs_cli::differences(a, b, 0).len() == 0,
{
}

/// A document goes on with its lines: one that is ended by a line feed comes before the
/// lines of the rest.
pub proof fn law_a_line_ends_at_a_line_feed(line: Text, rest: Text)
    requires
        !line.contains('\n'),
        line.len() > 0 ==> line[line.len() - 1] != '\r',
    ensures
        docs_cli::lines_of(line + seq!['\n'] + rest) == seq![line] + docs_cli::lines_of(rest),
        line.len() > 0 ==> docs_cli::lines_of(line) == seq![line],
        docs_cli::lines_of(Seq::empty()).len() == 0,
{
    let s = line + seq!['\n'] + rest;
    lemma_split_line(line, rest);
    lemma_unsplit(line);
    assert(s.len() > 0);
}

proof fn lemma_split_line(line: Text, rest: Text)
    requires
        !line.contains('\n'),
    ensures
        text::split_at_first(line + seq!['\n'] + rest, '\n') == Some((line, rest)),
    decreases line.len(),
{
    let s = line + seq!['\n'] + rest;
    if line.len() == 0 {
        assert(s[0] == '\n');
        assert(s.drop_first() =~= rest);
        assert(line =~= Seq::<char>::empty());
    } else {
        let tail = line.drop_first();
        assert(!tail.contains('\n')) by {
            if tail.contains('\n') {
                assert(line[tail.index_of('\n') + 1] == '\n');
            }
        }
        lemma_split_line(tail, rest);
        assert(s[0] == line[0]);
        assert(line.contains(line[0]));
        assert(s.drop_first() =~= tail + seq!['\n'] + rest);
        assert(seq![s[0]] + tail =~= line);
    }
}

proof fn lemma_unsplit(line: Text)
    requires
        !line.contains('\n'),
    ensures
        text::split_at_first(line, '\n') is None,
    decreases line.len(),
{
    if line.len() > 0 {
        let tail = line.drop_first();
        assert(!tail.contains('\n')) by {
            if tail.contains('\n') {
                assert(line[tail.index_of('\n') + 1] == '\n');
            }
        }
        assert(line.contains(line[0]));
        lemma_unsplit(tail);
    }
}

/// The description of an argument is its long help, else its short help, on one line.
pub proof fn law_long_help_comes_first(a: Arg)
    ensures
        a.long_help is Some ==> docs_cli::description(a) == docs_cli::on_line(a.long_help->0@),
        a.long_help is None && a.help is Some ==> docs_cli::description(a) == docs_cli::on_line(
            a.help->0@,
        ),
        a.long_help is None && a.help is None ==> docs_cli::description(a) == docs_cli::on_line(
            Seq::empty(),
        ),
        !docs_cli::description(a).contains('\n'),
{
    let raw: Text = match a.long_help {
        Some(h) => h@,
        None => match a.help {
            Some(h) => h@,
            None => Seq::empty(),
        },
    };
    let flat = docs_cli::unbroken(raw);
    assert(!flat.contains('\n')) by {
        if flat.contains('\n') {
            let k = flat.index_of('\n');
            assert(flat[k] == '\n');
        }
    }
    lemma_trim_within(flat);
    lemma_squeezed(text::trim(flat));
}

proof fn lemma_trim_within(s: Text)
    requires
        !s.contains('\n'),
    ensures
        !text::trim(s).contains('\n'),
{
    crate::text_laws::law_trimming_takes_white_space_only(s);
    let e = text::trim_end(s);
    let t = text::trim(s);
    if t.contains('\n') {
        let k = t.index_of('\n');
        assert(t[k] == e[e.len() - t.len() + k]);
        assert(e[e.len() - t.len() + k] == s[e.len() - t.len() + k]);
    }
}

proof fn lemma_squeezed(s: Text)
    requires
        !s.contains('\n'),
    ensures
        !docs_cli::squeezed(s).contains('\n'),
    decreases s.len(),
{
    if s.len() > 0 {
        let n: int = if s.len() >= 2 && s[0] == ' ' && s[1] == ' ' {
            2
        } else {
            1
        };
        let rest = s.skip(n);
        assert(!rest.contains('\n')) by {
            if rest.contains('\n') {
                assert(s[rest.index_of('\n') + n] == '\n');
            }
        }
        lemma_squeezed(rest);
        assert(s.contains(s[0]));
        let r = docs_cli::squeezed(s);
        if r.contains('\n') {
            let k = r.index_of('\n');
            if k > 0 {
                assert(docs_cli::squeezed(rest)[k - 1] == '\n');
            }
        }
    }
}

} // verus!
