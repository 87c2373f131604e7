//! Renders the per-subcommand reference tables of the command line and splices
//! them into its documentation.

use crate::text::{
    self, cat2, cat3, cat4, cat7, chars_of, join, push_char, to_uppercase, trim_str, Text,
};
use crate::xtask::splicer::{self, splice};
use vstd::prelude::*;

verus! {

broadcast use crate::text::lemma_texts_push;

/// What an argument does when it is given.
#[derive(Debug, Clone, Copy, PartialEq, Eq, Structural)]
pub enum ArgAction {
    /// Takes a value.
    TakeValue,
    /// Takes a value and may be repeated.
    TakeValues,
    /// Switches something on.
    SetTrue,
    /// Switches something off.
    SetFalse,
    /// Counts how often it is given.
    Count,
    Help,
    HelpShort,
    HelpLong,
    Version,
}

/// An argument of a command.
#[derive(Debug)]
pub struct Arg {
    pub id: String,
    /// Whether it is recognised by its position.
    pub positional: bool,
    pub required: bool,
    pub short: Option<char>,
    pub long: Option<String>,
    /// The first name for its value, if there is one.
    pub value_name: Option<String>,
    pub action: ArgAction,
    pub default_values: Vec<String>,
    pub help: Option<String>,
    pub long_help: Option<String>,
}

/// A command with its arguments.
#[derive(Debug)]
pub struct Command {
    pub name: String,
    pub hidden: bool,
    pub arguments: Vec<Arg>,
}

/// Whether an argument asks for help or for the version.
pub open spec fn implicit(a: Arg) -> bool {
    a.action == ArgAction::Help || a.action == ArgAction::HelpShort || a.action
        == ArgAction::HelpLong || a.action == ArgAction::Version
}

/// Whether an argument takes a value.
pub open spec fn valued(a: Arg) -> bool {
    a.action == ArgAction::TakeValue || a.action == ArgAction::TakeValues
}

/// Whether an argument asks for help or for the version.
pub fn is_implicit_help_or_version(arg: &Arg) -> (r: bool)
    ensures
        r == implicit(*arg),
{
    match arg.action {
        ArgAction::Help | ArgAction::HelpShort | ArgAction::HelpLong | ArgAction::Version => true,
        _ => false,
    }
}

/// Whether an argument takes a value.
pub fn takes_value(arg: &Arg) -> (r: bool)
    ensures
        r == valued(*arg),
{
    match arg.action {
        ArgAction::TakeValue | ArgAction::TakeValues => true,
        _ => false,
    }
}

/// A text with its line feeds made spaces.
pub open spec fn unbroken(s: Text) -> Text {
    s.map_values(
        |c: char|
            if c == '\n' {
                ' '
            } else {
                c
            },
    )
}

/// A text with each two spaces, taken from the left, made one.
pub open spec fn squeezed(s: Text) -> Text
    decreases s.len(),
{
    if s.len() == 0 {
        s
    } else if s.len() >= 2 && s[0] == ' ' && s[1] == ' ' {
        seq![' '] + squeezed(s.skip(2))
    } else {
        seq![s[0]] + squeezed(s.skip(1))
    }
}

/// A text on one line.
pub open spec fn on_line(s: Text) -> Text {
    squeezed(text::trim(unbroken(s)))
}

/// Puts a text on one line.
pub fn one_line(s: &str) -> (r: String)
    ensures
        r@ == on_line(s@),
{
    let chars = chars_of(s);
    let mut flat = String::new();
    let mut i: usize = 0;
    assert(flat@ =~= unbroken(s@).take(0));
    while i < chars.len()
        invariant
            0 <= i <= chars.len(),
            chars@ == s@,
            flat@ == unbroken(s@).take(i as int),
        decreases chars.len() - i,
    {
        let c = if chars[i] == '\n' {
            ' '
        } else {
            chars[i]
        };
        push_char(&mut flat, c);
        assert(unbroken(s@).take(i + 1) =~= unbroken(s@).take(i as int).push(c));
        i = i + 1;
    }
    assert(unbroken(s@).take(s@.len() as int) =~= unbroken(s@));
    let trimmed = chars_of(trim_str(flat.as_str()));
    let n = trimmed.len();
    let mut out = String::new();
    let mut k: usize = 0;
    assert(trimmed@.skip(0) =~= trimmed@);
    assert(out@ + squeezed(trimmed@) =~= squeezed(trimmed@));
    while k < n
        invariant
            0 <= k <= n,
            n == trimmed@.len(),
            squeezed(trimmed@) == out@ + squeezed(trimmed@.skip(k as int)),
        decreases n - k,
    {
        let ghost rest = trimmed@.skip(k as int);
        let ghost before = out@;
        assert(rest[0] == trimmed@[k as int]);
        if n - k >= 2 && trimmed[k] == ' ' && trimmed[k + 1] == ' ' {
            push_char(&mut out, ' ');
            proof {
                assert(rest[1] == trimmed@[k + 1]);
                assert(rest.skip(2) =~= trimmed@.skip(k + 2));
                assert(before + (seq![' '] + squeezed(rest.skip(2))) =~= out@ + squeezed(
                    trimmed@.skip(k + 2),
                ));
            }
            k = k + 2;
        } else {
            push_char(&mut out, trimmed[k]);
            proof {
                assert(rest.skip(1) =~= trimmed@.skip(k + 1));
                assert(n - k >= 2 ==> rest[1] == trimmed@[k + 1]);
                assert(before + (seq![rest[0]] + squeezed(rest.skip(1))) =~= out@ + squeezed(
                    trimmed@.skip(k + 1),
                ));
            }
            k = k + 1;
        }
    }
    assert(trimmed@.skip(n as int) =~= Seq::empty());
    assert(out@ + squeezed(trimmed@.skip(n as int)) =~= out@);
    out
}

/// The description of an argument: the long help, or the short one.
pub open spec fn description(a: Arg) -> Text {
    on_line(
        match a.long_help {
            Some(h) => h@,
            None => match a.help {
                Some(h) => h@,
                None => Seq::empty(),
            },
        },
    )
}

/// The description of an argument: the long help, or the short one.
pub fn pick_help(arg: &Arg) -> (r: String)
    ensures
        r@ == description(*arg),
{
    match &arg.long_help {
        Some(h) => one_line(h.as_str()),
        None => match &arg.help {
            Some(h) => one_line(h.as_str()),
            None => {
                reveal_empty();
                one_line("")
            },
        },
    }
}

/// The empty literal holds nothing.
fn reveal_empty()
    ensures
        ""@ == Seq::<char>::empty(),
{
    proof {
        reveal_strlit("");
        assert(""@ =~= Seq::<char>::empty());
    }
}

/// A text as code.
pub open spec fn code(s: Text) -> Text {
    "`"@ + s + "`"@
}

/// The row of a positional argument.
pub open spec fn positional_row(a: Arg) -> Text {
    "| "@ + code(
        match a.value_name {
            Some(n) => n@,
            None => a.id@,
        },
    ) + " | "@ + (if a.required {
        "yes"@
    } else {
        "no"@
    }) + " | "@ + description(a) + " |"@
}

/// The row of a positional argument.
pub fn format_positional_row(arg: &Arg) -> (r: String)
    ensures
        r@ == positional_row(*arg),
{
    let name = match &arg.value_name {
        Some(n) => cat3("`", n.as_str(), "`"),
        None => cat3("`", arg.id.as_str(), "`"),
    };
    let required = if arg.required {
        "yes"
    } else {
        "no"
    };
    let help = pick_help(arg);
    cat7("| ", name.as_str(), " | ", required, " | ", help.as_str(), " |")
}

/// The ways to write an option: by one letter, by a word, or else by its id.
pub open spec fn spellings(a: Arg) -> Seq<Text> {
    let short = match a.short {
        Some(c) => seq!["`-"@ + seq![c] + "`"@],
        None => Seq::empty(),
    };
    let long = match a.long {
        Some(l) => seq!["`--"@ + l@ + "`"@],
        None => Seq::empty(),
    };
    if short.len() + long.len() == 0 {
        seq![code(a.id@)]
    } else {
        short + long
    }
}

/// How an option is written, with the value that it takes. Without a name for
/// its value, that is the id in capital letters.
pub open spec fn option_name(a: Arg) -> Text {
    let name = text::joined(spellings(a), ", "@);
    if valued(a) {
        name + (" `<"@ + (match a.value_name {
            Some(n) => n@,
            None => text::uppercase(a.id@),
        }) + ">`"@)
    } else {
        name
    }
}

/// The default values as code.
pub open spec fn default_codes(values: Seq<Text>) -> Seq<Text> {
    values.map_values(|v: Text| code(v))
}

/// The default of an option.
pub open spec fn default_text(a: Arg) -> Text {
    if a.default_values@.len() == 0 {
        match a.action {
            ArgAction::SetTrue => "`false`"@,
            ArgAction::SetFalse => "`true`"@,
            ArgAction::Count => "`0`"@,
            _ => "—"@,
        }
    } else {
        text::joined(default_codes(text::texts(a.default_values@)), ", "@)
    }
}

/// The default of an option.
pub fn format_default(arg: &Arg) -> (r: String)
    ensures
        r@ == default_text(*arg),
{
    let n = arg.default_values.len();
    if n == 0 {
        match arg.action {
            ArgAction::SetTrue => "`false`".to_owned(),
            ArgAction::SetFalse => "`true`".to_owned(),
            ArgAction::Count => "`0`".to_owned(),
            _ => "—".to_owned(),
        }
    } else {
        let ghost all = text::texts(arg.default_values@);
        let mut codes: Vec<String> = Vec::new();
        let mut i: usize = 0;
        assert(text::texts(codes@) =~= default_codes(all.take(0)));
        while i < n
            invariant
                0 <= i <= n,
                n == arg.default_values@.len(),
                all == text::texts(arg.default_values@),
                text::texts(codes@) == default_codes(all.take(i as int)),
                codes@.len() == i,
            decreases n - i,
        {
            codes.push(cat3("`", arg.default_values[i].as_str(), "`"));
            assert(default_codes(all.take(i + 1)) =~= default_codes(all.take(i as int)).push(
                code(all[i as int]),
            ));
            i = i + 1;
        }
        assert(all.take(n as int) =~= all);
        assert(text::texts(codes@).take(n as int) =~= default_codes(all));
        join(&codes, n, ", ")
    }
}

/// The row of an option.
pub open spec fn option_row(a: Arg) -> Text {
    "| "@ + option_name(a) + " | "@ + default_text(a) + " | "@ + description(a) + " |"@
}

fn spell(arg: &Arg) -> (r: Vec<String>)
    ensures
        text::texts(r@) == spellings(*arg),
{
    let mut parts: Vec<String> = Vec::new();
    assert(text::texts(parts@) =~= Seq::empty());
    if let Some(short) = arg.short {
        let mut letter = String::new();
        push_char(&mut letter, short);
        assert(letter@ =~= seq![short]);
        parts.push(cat3("`-", letter.as_str(), "`"));
    }
    if let Some(long) = &arg.long {
        parts.push(cat3("`--", long.as_str(), "`"));
    }
    if parts.len() == 0 {
        parts.push(cat3("`", arg.id.as_str(), "`"));
    }
    assert(text::texts(parts@) =~= spellings(*arg));
    parts
}

/// The row of an option.
pub fn format_option_row(arg: &Arg) -> (r: String)
    ensures
        r@ == option_row(*arg),
{
    let parts = spell(arg);
    let n = parts.len();
    assert(text::texts(parts@).take(n as int) =~= text::texts(parts@));
    let mut name = join(&parts, n, ", ");
    if takes_value(arg) {
        let value_name = match &arg.value_name {
            Some(n) => n.clone(),
            None => to_uppercase(arg.id.as_str()),
        };
        name.append(cat3(" `<", value_name.as_str(), ">`").as_str());
    }
    let default = format_default(arg);
    let help = pick_help(arg);
    cat7("| ", name.as_str(), " | ", default.as_str(), " | ", help.as_str(), " |")
}

/// Which arguments stand in a table: the positional ones, or the options that a
/// command has of its own.
pub open spec fn listed(a: Arg, positional: bool) -> bool {
    if positional {
        a.positional
    } else {
        !a.positional && !implicit(a)
    }
}

/// The rows of a table, each on a line of its own.
pub open spec fn rows(arguments: Seq<Arg>, positional: bool) -> Text
    decreases arguments.len(),
{
    if arguments.len() == 0 {
        Seq::empty()
    } else {
        let a = arguments.last();
        let before = rows(arguments.drop_last(), positional);
        if listed(a, positional) {
            before + (if positional {
                positional_row(a)
            } else {
                option_row(a)
            }) + "\n"@
        } else {
            before
        }
    }
}

/// Whether a command has arguments for a table.
pub open spec fn has_rows(arguments: Seq<Arg>, positional: bool) -> bool {
    exists|i: int| 0 <= i < arguments.len() && listed(#[trigger] arguments[i], positional)
}

/// The reference of a command: a table of its positional arguments and one of
/// its options, as far as it has any.
pub open spec fn rendered(cmd: Command, is_root: bool) -> Text {
    let positionals = has_rows(cmd.arguments@, true);
    let options = has_rows(cmd.arguments@, false);
    if !positionals && !options {
        if is_root {
            "This subcommand takes no arguments or flags.\n"@
                + "\nGlobal flags above apply when invoking `zaz` with no subcommand.\n"@
        } else {
            "This subcommand takes no arguments or flags.\n"@
        }
    } else {
        (if positionals {
            "**Positional arguments**\n\n| Argument | Required | Description |\n|----------|----------|-------------|\n"@
                + rows(cmd.arguments@, true) + "\n"@
        } else {
            Seq::empty()
        }) + (if options {
            "**Flags**\n\n| Flag | Default | Description |\n|------|---------|-------------|\n"@
                + rows(cmd.arguments@, false)
        } else {
            Seq::empty()
        })
    }
}

/// The rows of a table, and whether there are any.
fn render_rows(arguments: &Vec<Arg>, positional: bool) -> (r: (String, bool))
    ensures
        r.0@ == rows(arguments@, positional),
        r.1 == has_rows(arguments@, positional),
{
    let mut out = String::new();
    let mut any = false;
    let mut i: usize = 0;
    assert(arguments@.take(0) =~= Seq::empty());
    assert(out@ =~= Seq::empty());
    while i < arguments.len()
        invariant
            0 <= i <= arguments.len(),
            out@ == rows(arguments@.take(i as int), positional),
            any == (exists|j: int| 0 <= j < i && listed(#[trigger] arguments@[j], positional)),
        decreases arguments.len() - i,
    {
        let arg = &arguments[i];
        let ghost before = out@;
        proof {
            assert(arguments@.take(i + 1).drop_last() =~= arguments@.take(i as int));
            assert(arguments@.take(i + 1).last() == arguments@[i as int]);
        }
        if positional {
            if arg.positional {
                out.append(format_positional_row(arg).as_str());
                out.append("\n");
                any = true;
            }
        } else if !arg.positional && !is_implicit_help_or_version(arg) {
            out.append(format_option_row(arg).as_str());
            out.append("\n");
            any = true;
        }
        assert(any ==> exists|j: int|
            0 <= j < i + 1 && listed(#[trigger] arguments@[j], positional)) by {
            if listed(arguments@[i as int], positional) {
                assert(listed(arguments@[i as int], positional));
            }
        }
        i = i + 1;
    }
    assert(arguments@.take(arguments@.len() as int) =~= arguments@);
    (out, any)
}

/// The reference of a command.
pub fn render_command(cmd: &Command, is_root: bool) -> (r: String)
    ensures
        r@ == rendered(*cmd, is_root),
{
    let (positional_rows, positionals) = render_rows(&cmd.arguments, true);
    let (option_rows, options) = render_rows(&cmd.arguments, false);
    if !positionals && !options {
        if is_root {
            return cat2(
                "This subcommand takes no arguments or flags.\n",
                "\nGlobal flags above apply when invoking `zaz` with no subcommand.\n",
            );
        }
        return "This subcommand takes no arguments or flags.\n".to_owned();
    }
    let mut out = String::new();
    assert(out@ =~= Seq::empty());
    if positionals {
        out = cat3(
            "**Positional arguments**\n\n| Argument | Required | Description |\n|----------|----------|-------------|\n",
            positional_rows.as_str(),
            "\n",
        );
    }
    let ghost first = out@;
    if options {
        out.append(
            cat2(
                "**Flags**\n\n| Flag | Default | Description |\n|------|---------|-------------|\n",
                option_rows.as_str(),
            ).as_str(),
        );
    } else {
        assert(first + Seq::<char>::empty() =~= first);
    }
    out
}

/// The marker of a subcommand.
pub open spec fn sub_marker(root: Text, sub: Text) -> Text {
    root + " "@ + sub
}

/// The documentation with the tables of some subcommands renewed, or the marker
/// whose block could not be spliced and why.
pub open spec fn renewed(root: Text, subs: Seq<Command>, doc: Text) -> Result<Text, (Text, Text)>
    decreases subs.len(),
{
    if subs.len() == 0 {
        Ok(doc)
    } else {
        match renewed(root, subs.drop_last(), doc) {
            Err(e) => Err(e),
            Ok(current) => {
                let sub = subs.last();
                if sub.hidden {
                    Ok(current)
                } else {
                    let marker = sub_marker(root, sub.name@);
                    match splicer::spliced(marker, rendered(sub, false), current) {
                        Ok(next) => Ok(next),
                        Err(e) => Err((marker, e)),
                    }
                }
            },
        }
    }
}

/// The documentation with all tables renewed: that of the root command, then
/// those of its subcommands. Hidden subcommands have none.
pub open spec fn regenerated(root: Command, subs: Seq<Command>, doc: Text) -> Result<
    Text,
    (Text, Text),
> {
    match splicer::spliced(root.name@, rendered(root, true), doc) {
        Err(e) => Err((root.name@, e)),
        Ok(current) => renewed(root.name@, subs, current),
    }
}

/// A block of the documentation that could not be renewed.
#[derive(Debug)]
pub struct RegenerateError {
    /// The marker of the block.
    pub marker: String,
    /// What is wrong with it.
    pub cause: String,
}

impl RegenerateError {
    /// The error in words.
    pub fn to_string(&self) -> (r: String)
        ensures
            r@ == "splicing "@ + self.marker@ + ": "@ + self.cause@,
    {
        cat4("splicing ", self.marker.as_str(), ": ", self.cause.as_str())
    }
}

/// Renews all tables of the documentation: that of the root command, then those
/// of its subcommands. Hidden subcommands have none.
pub fn regenerate(original: &str, root: &Command, subs: &Vec<Command>) -> (r: Result<
    String,
    RegenerateError,
>)
    ensures
        match r {
            Ok(doc) => regenerated(*root, subs@, original@) == Ok::<Text, (Text, Text)>(doc@),
            Err(e) => regenerated(*root, subs@, original@) == Err::<Text, (Text, Text)>(
                (e.marker@, e.cause@),
            ),
        },
{
    let mut current = match splice(
        root.name.as_str(),
        render_command(root, true).as_str(),
        original,
    ) {
        Ok(s) => s,
        Err(cause) => {
            return Err(RegenerateError { marker: root.name.clone(), cause });
        },
    };
    let ghost first = current@;
    let mut i: usize = 0;
    assert(subs@.take(0) =~= Seq::empty());
    while i < subs.len()
        invariant
            0 <= i <= subs.len(),
            renewed(root.name@, subs@.take(i as int), first) == Ok::<Text, (Text, Text)>(current@),
            regenerated(*root, subs@, original@) == renewed(root.name@, subs@, first),
        decreases subs.len() - i,
    {
        let sub = &subs[i];
        proof {
            assert(subs@.take(i + 1).drop_last() =~= subs@.take(i as int));
            assert(subs@.take(i + 1).last() == subs@[i as int]);
        }
        if !sub.hidden {
            let marker = cat3(root.name.as_str(), " ", sub.name.as_str());
            let body = render_command(sub, false);
            current = match splice(marker.as_str(), body.as_str(), current.as_str()) {
                Ok(s) => s,
                Err(cause) => {
                    proof {
                        lemma_renewed_fails(root.name@, subs@, first, i + 1);
                    }
                    return Err(RegenerateError { marker, cause });
                },
            };
        }
        i = i + 1;
    }
    assert(subs@.take(subs@.len() as int) =~= subs@);
    Ok(current)
}

/// What fails for the first subcommands fails for all of them.
proof fn lemma_renewed_fails(root: Text, subs: Seq<Command>, doc: Text, n: int)
    requires
        0 <= n <= subs.len(),
        renewed(root, subs.take(n), doc) is Err,
    ensures
        renewed(root, subs, doc) == renewed(root, subs.take(n), doc),
    decreases subs.len() - n,
{
    if n == subs.len() {
        assert(subs.take(n) =~= subs);
    } else {
        assert(subs.take(n + 1).drop_last() =~= subs.take(n));
        lemma_renewed_fails(root, subs, doc, n + 1);
    }
}

/// The lines of a text (`str::lines`): without the line feeds that end them and
/// the carriage returns before those.
pub open spec fn lines_of(s: Text) -> Seq<Text>
    decreases s.len(),
{
    if s.len() == 0 {
        Seq::empty()
    } else {
        proof {
            text::lemma_split_shorter(s, '\n');
        }
        match text::split_at_first(s, '\n') {
            Some((line, rest)) => seq![
                if line.len() > 0 && line.last() == '\r' {
                    line.drop_last()
                } else {
                    line
                },
            ] + lines_of(rest),
            None => seq![s],
        }
    }
}

/// `str::lines`.
fn split_lines(s: &str) -> (r: Vec<String>)
    ensures
        text::texts(r@) == lines_of(s@),
{
    let mut out: Vec<String> = Vec::new();
    let mut rest = s;
    let mut more = rest.unicode_len() > 0;
    assert(text::texts(out@) =~= Seq::empty());
    assert(text::texts(out@) + lines_of(rest@) =~= lines_of(s@));
    while more
        invariant
            more == (rest@.len() > 0),
            text::texts(out@) + lines_of(rest@) == lines_of(s@),
        decreases rest@.len(),
    {
        let ghost before = text::texts(out@);
        let ghost was = rest@;
        match text::split_once(rest, '\n') {
            Some((line, tail)) => {
                let n = line.unicode_len();
                let bare = if n > 0 && line.get_char(n - 1) == '\r' {
                    line.substring_char(0, n - 1)
                } else {
                    line
                };
                proof {
                    text::lemma_split_shorter(was, '\n');
                    if n > 0 && line@.last() == '\r' {
                        assert(bare@ =~= line@.drop_last());
                    }
                }
                out.push(bare.to_owned());
                assert(text::texts(out@) + lines_of(tail@) =~= before + (seq![bare@] + lines_of(
                    tail@,
                )));
                rest = tail;
            },
            None => {
                out.push(rest.to_owned());
                rest = rest.substring_char(0, 0);
                proof {
                    assert(rest@ =~= Seq::empty());
                    assert(lines_of(rest@) =~= Seq::empty());
                    assert(text::texts(out@) + lines_of(rest@) =~= before + seq![was]);
                }
            },
        }
        more = rest.unicode_len() > 0;
    }
    assert(rest@ =~= Seq::empty());
    assert(text::texts(out@) + lines_of(rest@) =~= text::texts(out@));
    out
}

/// What a pair of lines adds to a difference.
pub open spec fn difference_at(lhs: Seq<Text>, rhs: Seq<Text>, i: int) -> Text {
    if i < lhs.len() && i < rhs.len() {
        if lhs[i] == rhs[i] {
            Seq::empty()
        } else {
            "- "@ + lhs[i] + "\n+ "@ + rhs[i] + "\n"@
        }
    } else if i < lhs.len() {
        "- "@ + lhs[i] + "\n"@
    } else {
        "+ "@ + rhs[i] + "\n"@
    }
}

/// The differences of the first `n` lines.
pub open spec fn differences(lhs: Seq<Text>, rhs: Seq<Text>, n: nat) -> Text
    decreases n,
{
    if n == 0 {
        Seq::empty()
    } else {
        differences(lhs, rhs, (n - 1) as nat) + difference_at(lhs, rhs, n - 1)
    }
}

/// The difference of two documents, line by line.
pub open spec fn difference(original: Text, updated: Text, path: Text) -> Text {
    let lhs = lines_of(original);
    let rhs = lines_of(updated);
    let n = if lhs.len() > rhs.len() {
        lhs.len()
    } else {
        rhs.len()
    };
    "--- "@ + path + " (committed)\n"@ + ("+++ "@ + path + " (regenerated)\n"@) + differences(
        lhs,
        rhs,
        n,
    )
}

/// The difference of two documents, line by line.
pub fn unified_diff(original: &str, updated: &str, path: &str) -> (r: String)
    ensures
        r@ == difference(original@, updated@, path@),
{
    let lhs = split_lines(original);
    let rhs = split_lines(updated);
    let ghost a = text::texts(lhs@);
    let ghost b = text::texts(rhs@);
    let n: usize = if lhs.len() > rhs.len() {
        lhs.len()
    } else {
        rhs.len()
    };
    let mut out = String::new();
    let mut i: usize = 0;
    assert(out@ =~= differences(a, b, 0));
    while i < n
        invariant
            0 <= i <= n,
            a == text::texts(lhs@),
            b == text::texts(rhs@),
            n == if a.len() > b.len() {
                a.len()
            } else {
                b.len()
            },
            out@ == differences(a, b, i as nat),
        decreases n - i,
    {
        let ghost before = out@;
        if i < lhs.len() && i < rhs.len() {
            assert(a[i as int] == lhs@[i as int]@);
            assert(b[i as int] == rhs@[i as int]@);
            if text::str_eq(lhs[i].as_str(), rhs[i].as_str()) {
                assert(before + Seq::<char>::empty() =~= before);
            } else {
                out.append(
                    text::cat5("- ", lhs[i].as_str(), "\n+ ", rhs[i].as_str(), "\n").as_str(),
                );
            }
        } else if i < lhs.len() {
            out.append(cat3("- ", lhs[i].as_str(), "\n").as_str());
        } else {
            out.append(cat3("+ ", rhs[i].as_str(), "\n").as_str());
        }
        i = i + 1;
    }
    let mut head = cat3("--- ", path, " (committed)\n");
    head.append(cat3("+++ ", path, " (regenerated)\n").as_str());
    head.append(out.as_str());
    head
}

/// What is to be done about the documentation.
#[derive(Debug, Clone, Copy, PartialEq, Eq, Structural)]
pub enum DocsStep {
    /// It is up to date.
    UpToDate,
    /// It is to be written anew.
    Write,
    /// It is out of date, which is an error.
    Drift,
}

/// What is to be done about the documentation, given what it is and what it
/// should be.
pub fn docs_step(original: &str, regenerated: &str, write: bool) -> (r: DocsStep)
    ensures
        r == if regenerated@ == original@ {
            DocsStep::UpToDate
        } else if write {
            DocsStep::Write
        } else {
            DocsStep::Drift
        },
{
    if text::str_eq(regenerated, original) {
        DocsStep::UpToDate
    } else if write {
        DocsStep::Write
    } else {
        DocsStep::Drift
    }
}

} // verus!
