//! Turning the fields of a daemon's own log events into log lines.

use crate::daemon::api::{LogLine, LogModel, LogSource, OutputKind};
use crate::text::{self, cat3, chars_of, str_eq, string_of, Text};
use vstd::prelude::*;

verus! {

/// What a field of an event is for.
#[derive(Debug, Clone, Copy, PartialEq, Eq, Structural)]
pub enum FieldRole {
    /// The message itself.
    Message,
    /// The process that the event belongs to.
    Process,
    /// The group that the event belongs to.
    Group,
    /// Anything else: it is added to the message.
    Extra,
}

/// What a field is for, by its name.
pub open spec fn role_of(name: Text) -> FieldRole {
    if name == "message"@ {
        FieldRole::Message
    } else if name == "daemon"@ || name == "task"@ || name == "name"@ || name == "process"@ {
        FieldRole::Process
    } else if name == "group"@ {
        FieldRole::Group
    } else {
        FieldRole::Extra
    }
}

fn role(name: &str) -> (r: FieldRole)
    ensures
        r == role_of(name@),
{
    if str_eq(name, "message") {
        FieldRole::Message
    } else if str_eq(name, "daemon") || str_eq(name, "task") || str_eq(name, "name") || str_eq(
        name,
        "process",
    ) {
        FieldRole::Process
    } else if str_eq(name, "group") {
        FieldRole::Group
    } else {
        FieldRole::Extra
    }
}

/// Whether a text begins and ends with a quotation mark.
pub open spec fn quoted(s: Text) -> bool {
    s.len() > 0 && s[0] == '"' && s.last() == '"'
}

/// A text without the quotation marks that surround it.
pub open spec fn unquoted(s: Text) -> Text {
    if quoted(s) {
        s.subrange(1, s.len() - 1)
    } else {
        s
    }
}

/// A text without its leading quotation marks.
pub open spec fn strip_leading(s: Text) -> Text
    decreases s.len(),
{
    if s.len() > 0 && s[0] == '"' {
        strip_leading(s.drop_first())
    } else {
        s
    }
}

/// A text without its trailing quotation marks.
pub open spec fn strip_trailing(s: Text) -> Text
    decreases s.len(),
{
    if s.len() > 0 && s.last() == '"' {
        strip_trailing(s.drop_last())
    } else {
        s
    }
}

/// A text without the quotation marks at its ends.
pub open spec fn stripped(s: Text) -> Text {
    strip_trailing(strip_leading(s))
}

/// `str::trim_matches` with a quotation mark: the text without those at its
/// ends.
fn strip_quotes(s: &str) -> (r: String)
    ensures
        r@ == stripped(s@),
{
    let chars = chars_of(s);
    let n = chars.len();
    let mut start: usize = 0;
    assert(chars@.skip(0) =~= chars@);
    while start < n && chars[start] == '"'
        invariant
            start <= n,
            n == chars@.len(),
            chars@ == s@,
            strip_leading(s@) == strip_leading(chars@.skip(start as int)),
        decreases n - start,
    {
        assert(chars@.skip(start as int).drop_first() =~= chars@.skip(start + 1));
        start = start + 1;
    }
    let ghost rest = chars@.skip(start as int);
    assert(strip_leading(s@) == rest);
    let mut end: usize = n;
    assert(rest.take(n - start) =~= rest);
    while end > start && chars[end - 1] == '"'
        invariant
            start <= end <= n,
            n == chars@.len(),
            rest == chars@.skip(start as int),
            strip_trailing(rest) == strip_trailing(rest.take(end - start)),
        decreases end,
    {
        assert(rest.take(end - start).drop_last() =~= rest.take(end - 1 - start));
        end = end - 1;
    }
    let r = string_of(&chars, start, end);
    assert(r@ =~= rest.take(end - start));
    r
}

/// The fields of an event, as far as they were recorded.
#[derive(Debug)]
pub struct EventFields {
    /// The message.
    pub message: String,
    /// The process that the event belongs to.
    pub process: Option<String>,
    /// The group that the event belongs to.
    pub group: Option<String>,
}

/// A field is added to a message.
pub open spec fn appended(message: Text, name: Text, value: Text) -> Text {
    (if message.len() > 0 {
        message + ", "@
    } else {
        message
    }) + (name + "="@ + value)
}

impl EventFields {
    /// The fields of an event of which nothing was recorded.
    pub fn new() -> (r: Self)
        ensures
            r.message@ == Seq::<char>::empty(),
            r.process is None,
            r.group is None,
    {
        EventFields { message: String::new(), process: None, group: None }
    }

    fn append(&mut self, name: &str, value: &str)
        ensures
            final(self).message@ == appended(old(self).message@, name@, value@),
            final(self).process == old(self).process,
            final(self).group == old(self).group,
    {
        if self.message.as_str().unicode_len() > 0 {
            self.message.append(", ");
        }
        self.message.append(cat3(name, "=", value).as_str());
    }

    /// Records a field by the debug notation of its value. A message loses the
    /// quotation marks that surround it; a process and a group lose those at
    /// their ends.
    pub fn record_debug(&mut self, name: &str, value: &str)
        requires
            role_of(name@) == FieldRole::Message ==> old(self).message@ + value@ != seq!['"'],
        ensures
            match role_of(name@) {
                FieldRole::Message => final(self).message@ == unquoted(
                    old(self).message@ + value@,
                ) && final(self).process == old(self).process && final(self).group
                    == old(self).group,
                FieldRole::Process => final(self).message == old(self).message && (final(self).process matches Some(p) && p@ == stripped(value@)) && final(self).group
                    == old(self).group,
                FieldRole::Group => final(self).message == old(self).message && final(self).process
                    == old(self).process && (final(self).group matches Some(g) && g@ == stripped(
                    value@,
                )),
                FieldRole::Extra => final(self).message@ == appended(
                    old(self).message@,
                    name@,
                    value@,
                ) && final(self).process == old(self).process && final(self).group
                    == old(self).group,
            },
    {
        match role(name) {
            FieldRole::Message => {
                self.message.append(value);
                let chars = chars_of(self.message.as_str());
                let n = chars.len();
                if n > 0 && chars[0] == '"' && chars[n - 1] == '"' {
                    proof {
                        if n == 1 {
                            assert(self.message@ =~= seq!['"']);
                        }
                    }
                    self.message = string_of(&chars, 1, n - 1);
                }
            },
            FieldRole::Process => {
                self.process = Some(strip_quotes(value));
            },
            FieldRole::Group => {
                self.group = Some(strip_quotes(value));
            },
            FieldRole::Extra => self.append(name, value),
        }
    }

    /// Records a field that holds a text.
    pub fn record_str(&mut self, name: &str, value: &str)
        ensures
            match role_of(name@) {
                FieldRole::Message => final(self).message@ == value@ && final(self).process == old(self).process && final(self).group == old(self).group,
                FieldRole::Process => final(self).message == old(self).message && (final(self).process matches Some(p) && p@ == value@) && final(self).group == old(self).group,
                FieldRole::Group => final(self).message == old(self).message && final(self).process
                    == old(self).process && (final(self).group matches Some(g) && g@ == value@),
                FieldRole::Extra => final(self).message@ == appended(
                    old(self).message@,
                    name@,
                    value@,
                ) && final(self).process == old(self).process && final(self).group
                    == old(self).group,
            },
    {
        match role(name) {
            FieldRole::Message => {
                self.message = value.to_owned();
            },
            FieldRole::Process => {
                self.process = Some(value.to_owned());
            },
            FieldRole::Group => {
                self.group = Some(value.to_owned());
            },
            FieldRole::Extra => self.append(name, value),
        }
    }

    /// Records a field that holds a signed number.
    pub fn record_i64(&mut self, name: &str, value: i64)
        ensures
            final(self).message@ == appended(
                old(self).message@,
                name@,
                text::signed_decimal(value as int),
            ),
            final(self).process == old(self).process,
            final(self).group == old(self).group,
    {
        let notation = text::signed_decimal_of_i64(value);
        self.append(name, notation.as_str());
    }

    /// Records a field that holds a number.
    pub fn record_u64(&mut self, name: &str, value: u64)
        ensures
            final(self).message@ == appended(old(self).message@, name@, text::decimal(value as nat)),
            final(self).process == old(self).process,
            final(self).group == old(self).group,
    {
        let notation = text::decimal_of(value);
        self.append(name, notation.as_str());
    }

    /// Records a field that holds a truth value.
    pub fn record_bool(&mut self, name: &str, value: bool)
        ensures
            final(self).message@ == appended(
                old(self).message@,
                name@,
                if value {
                    "true"@
                } else {
                    "false"@
                },
            ),
            final(self).process == old(self).process,
            final(self).group == old(self).group,
    {
        self.append(
            name,
            if value {
                "true"
            } else {
                "false"
            },
        );
    }

    /// The line that the event is logged as: none without a message; without a
    /// process, it belongs to the daemon.
    pub fn log_line(&self) -> (r: Option<LogLine>)
        ensures
            match r {
                None => self.message@.len() == 0,
                Some(l) => self.message@.len() > 0 && l@ == (LogModel {
                    timestamp: l.timestamp,
                    process: match self.process {
                        Some(p) => p@,
                        None => "daemon"@,
                    },
                    group: text::opt_text(self.group),
                    content: self.message@,
                    source: LogSource::Daemon,
                    output_kind: OutputKind::Combined,
                }),
            },
    {
        if self.message.as_str().unicode_len() == 0 {
            return None;
        }
        let process = match &self.process {
            Some(p) => p.as_str(),
            None => "daemon",
        };
        let line = LogLine::daemon(process, self.message.as_str());
        match &self.group {
            Some(g) => Some(line.with_group(g.as_str())),
            None => Some(line),
        }
    }
}

} // verus!
