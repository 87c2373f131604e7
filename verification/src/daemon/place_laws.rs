//! Laws of where things are: the configuration file, the socket, the database and the
//! user's preferences; and of what the daemon's own events are logged as.

use crate::config::discovery;
use crate::config::schema;
use crate::config::user::{self, UserConfig};
use crate::daemon::log_layer::{self, FieldRole};
use crate::daemon::server::{self, SocketSite};
use crate::daemon::sqlite;
use crate::paths;
use crate::text::{self, Text};
use vstd::prelude::*;

verus! {

/// The configuration file that is found is the first of the candidates that is there;
/// none is found exactly when none is there.
pub proof fn law_the_first_file_that_is_there_is_found(candidates: Seq<Text>, present: Seq<Text>)
    ensures
        match discovery::first_present(candidates, present) {
            Some(path) => exists|i: int|
                0 <= i < candidates.len() && #[trigger] candidates[i] == path && present.contains(
                    path,
                ) && forall|j: int| 0 <= j < i ==> !present.contains(#[trigger] candidates[j]),
            None => forall|j: int|
                0 <= j < candidates.len() ==> !present.contains(#[trigger] candidates[j]),
        },
    decreases candidates.len(),
{
    if candidates.len() > 0 && !present.contains(candidates[0]) {
        let rest = candidates.drop_first();
        law_the_first_file_that_is_there_is_found(rest, present);
        match discovery::first_present(rest, present) {
            Some(path) => {
                let i = choose|i: int|
                    0 <= i < rest.len() && #[trigger] rest[i] == path && present.contains(path)
                        && forall|j: int| 0 <= j < i ==> !present.contains(#[trigger] rest[j]);
                assert(candidates[i + 1] == path);
                assert forall|j: int| 0 <= j < i + 1 implies !present.contains(
                    #[trigger] candidates[j],
                ) by {
                    if j > 0 {
                        assert(rest[j - 1] == candidates[j]);
                    }
                }
            },
            None => {
                assert forall|j: int| 0 <= j < candidates.len() implies !present.contains(
                    #[trigger] candidates[j],
                ) by {
                    if j > 0 {
                        assert(rest[j - 1] == candidates[j]);
                    }
                }
            },
        }
    } else if candidates.len() > 0 {
        assert(candidates[0] == candidates[0]);
    }
}

/// The candidates are two for each directory, from the innermost on: its TOML file, and
/// then its JSON file.
pub proof fn law_inner_directories_come_first(dirs: Seq<Text>, i: int)
    requires
        0 <= i < dirs.len(),
    ensures
        discovery::files_along(dirs).len() == 2 * dirs.len(),
        discovery::files_along(dirs)[2 * i] == paths::joined(dirs[i], "zaz.toml"@),
        discovery::files_along(dirs)[2 * i + 1] == paths::joined(dirs[i], "zaz.json"@),
        discovery::files_in(dirs[i]) == seq![
            paths::joined(dirs[i], "zaz.toml"@),
            paths::joined(dirs[i], "zaz.json"@),
        ],
    decreases dirs.len(),
{
    let short = dirs.drop_last();
    lemma_candidates(short);
    if i < short.len() {
        law_inner_directories_come_first(short, i);
    }
}

proof fn lemma_candidates(dirs: Seq<Text>)
    ensures
        discovery::files_along(dirs).len() == 2 * dirs.len(),
    decreases dirs.len(),
{
    if dirs.len() > 0 {
        lemma_candidates(dirs.drop_last());
    }
}

/// A project with a directory `.zaz` has its socket in there. Another has it in the
/// user's state directory, or that of the user in `/tmp` where there is no home, under a
/// name of its own: projects with different hashes never share a socket.
pub proof fn law_each_project_has_its_socket(a: SocketSite, b: SocketSite)
    ensures
        a.project_dir is Some && a.has_zaz_dir ==> server::socket_at(a) == paths::joined(
            paths::joined(a.project_dir->0@, ".zaz"@),
            "daemon.sock"@,
        ),
        !(a.project_dir is Some && a.has_zaz_dir) && a.home is Some ==> server::socket_at(a)
            == paths::joined(
            paths::joined(a.home->0@, ".local/state/zaz"@),
            paths::hash_name(a.hash, ".sock"@),
        ),
        !(a.project_dir is Some && a.has_zaz_dir) && a.home is None && a.user is Some
            ==> server::socket_at(a) == paths::joined(
            "/tmp/zaz-"@ + a.user->0@,
            paths::hash_name(a.hash, ".sock"@),
        ),
        !(a.project_dir is Some && a.has_zaz_dir) && !(b.project_dir is Some && b.has_zaz_dir)
            && text::opt_text(a.home) == text::opt_text(b.home) && text::opt_text(a.user)
            == text::opt_text(b.user) && server::socket_at(a) == server::socket_at(b) ==> a.hash
            == b.hash,
{
    if !(a.project_dir is Some && a.has_zaz_dir) && !(b.project_dir is Some && b.has_zaz_dir)
        && text::opt_text(a.home) == text::opt_text(b.home) && text::opt_text(a.user)
        == text::opt_text(b.user) && server::socket_at(a) == server::socket_at(b) {
        let dir = server::state_dir(text::opt_text(a.home), text::opt_text(a.user));
        lemma_names_apart(
            dir,
            paths::hash_name(a.hash, ".sock"@),
            paths::hash_name(b.hash, ".sock"@),
        );
        paths::law_names_of_hashes_differ(a.hash, b.hash, ".sock"@);
    }
}

proof fn lemma_names_apart(dir: Text, a: Text, b: Text)
    requires
        paths::joined(dir, a) == paths::joined(dir, b),
    ensures
        a == b,
{
    let x = paths::joined(dir, a);
    let y = paths::joined(dir, b);
    let n = x.len() - a.len();
    assert(a =~= x.skip(n));
    assert(y.len() - b.len() == n);
    assert(b =~= y.skip(n));
}

/// Without a configuration, the socket is in the runtime directory, else in the user's
/// state directory, else in `/tmp` under the user's name.
pub proof fn law_the_runtime_directory_comes_first(
    runtime_dir: Option<Text>,
    home: Option<Text>,
    user: Option<Text>,
)
    ensures
        runtime_dir is Some ==> server::default_socket(runtime_dir, home, user) == paths::joined(
            runtime_dir->0,
            "zaz.sock"@,
        ),
        runtime_dir is None && home is Some ==> server::default_socket(runtime_dir, home, user)
            == paths::joined(paths::joined(home->0, ".local/state/zaz"@), "zaz.sock"@),
        runtime_dir is None && home is None && user is Some ==> server::default_socket(
            runtime_dir,
            home,
            user,
        ) == "/tmp/zaz-"@ + user->0 + ".sock"@,
{
}

/// Each configuration has a database of its own, below the state directory: the one that
/// the environment names, if it names one, else that of the home directory.
pub proof fn law_each_project_has_its_database(
    xdg: Option<Text>,
    home: Option<Text>,
    a: u64,
    b: u64,
)
    ensures
        ({
            let base = sqlite::state_base(xdg, home);
            &&& xdg is Some && xdg->0.len() > 0 ==> base == xdg->0
            &&& !(xdg is Some && xdg->0.len() > 0) && home is Some ==> base == paths::joined(
                home->0,
                ".local/state"@,
            )
            &&& sqlite::db_file(base, a) == paths::joined(
                paths::joined(paths::joined(base, "zaz"@), "logs"@),
                paths::hash_name(a, ".sqlite3"@),
            )
            &&& sqlite::db_file(base, a) == sqlite::db_file(base, b) ==> a == b
        }),
{
    let base = sqlite::state_base(xdg, home);
    if sqlite::db_file(base, a) == sqlite::db_file(base, b) {
        lemma_names_apart(
            paths::joined(paths::joined(base, "zaz"@), "logs"@),
            paths::hash_name(a, ".sqlite3"@),
            paths::hash_name(b, ".sqlite3"@),
        );
        paths::law_names_of_hashes_differ(a, b, ".sqlite3"@);
    }
}

/// The user's preferences are in the configuration directory that the environment names,
/// else in that of the home directory.
pub proof fn law_preferences_are_in_the_configuration_directory(
    xdg: Option<Text>,
    home: Option<Text>,
)
    ensures
        xdg is Some ==> user::user_config_file(xdg, home) == paths::joined(
            paths::joined(xdg->0, "zaz"@),
            "config.toml"@,
        ),
        xdg is None && home is Some ==> user::user_config_file(xdg, home) == paths::joined(
            paths::joined(paths::joined(home->0, ".config"@), "zaz"@),
            "config.toml"@,
        ),
{
}

/// By default nothing is notified, but failures and groups that are complete would be;
/// logs are kept in memory, and colors that a command prints are kept.
pub proof fn law_defaults_are_quiet(c: UserConfig)
    requires
        c.is_default(),
    ensures
        !c.no_autostart,
        !c.disable_animations,
        c.tui_style is None,
        !c.notifications.enabled,
        c.notifications.on_failure,
        !c.notifications.on_success,
        c.notifications.on_group_complete,
        c.log_storage.backend is Memory,
        c.log_storage.hot_memory_limit@ == "100MB"@,
        c.log_storage.hot_max_lines_per_process == 100_000,
        c.log_storage.sqlite.max_size@ == "512MB"@,
        c.log_storage.sqlite.max_lines_per_process == 250_000,
        c.log_colors.preserve_ansi,
        !c.log_colors.parse_json,
        c.log_colors.rules@.len() == 4,
{
}

/// A field of an event is what its name says: the message, the process by any of its four
/// names, the group, or else something that is added to the message.
pub proof fn law_a_field_is_what_its_name_says(name: Text)
    ensures
        log_layer::role_of(name) is Message <==> name == "message"@,
        log_layer::role_of(name) is Process <==> name == "daemon"@ || name == "task"@ || name
            == "name"@ || name == "process"@,
        log_layer::role_of(name) is Group <==> name == "group"@,
        log_layer::role_of(name) is Extra <==> !(name == "message"@ || name == "daemon"@ || name
            == "task"@ || name == "name"@ || name == "process"@ || name == "group"@),
{
    reveal_strlit("message");
    reveal_strlit("daemon");
    reveal_strlit("task");
    reveal_strlit("name");
    reveal_strlit("process");
    reveal_strlit("group");
    assert("message"@[0] == 'm');
    assert("daemon"@[0] == 'd');
    assert("task"@[0] == 't');
    assert("name"@[0] == 'n');
    assert("process"@[0] == 'p');
    assert("group"@[0] == 'g');
}

/// What is added to a message stands behind it, a comma between them unless there is no
/// message yet, as a name, an equals sign and the value.
pub proof fn law_a_field_is_added_behind(message: Text, name: Text, value: Text)
    ensures
        message.len() == 0 ==> log_layer::appended(message, name, value) == name + "="@ + value,
        message.len() > 0 ==> log_layer::appended(message, name, value) == message + ", "@ + (name
            + "="@ + value),
{
    if message.len() == 0 {
        assert(message + (name + "="@ + value) =~= name + "="@ + value);
    }
}

/// Whether a text is quotation marks and nothing else.
pub open spec fn quotes_only(s: Text) -> bool {
    forall|i: int| 0 <= i < s.len() ==> #[trigger] s[i] == '"'
}

/// Stripping takes the quotation marks off both ends of a text, and nothing else.
pub proof fn law_stripping_takes_quotation_marks_only(s: Text)
    ensures
        exists|a: int, b: int|
            0 <= a <= b <= s.len() && log_layer::stripped(s) == #[trigger] s.subrange(a, b)
                && quotes_only(s.subrange(0, a)) && quotes_only(s.subrange(b, s.len() as int)),
        log_layer::stripped(s).len() > 0 ==> log_layer::stripped(s)[0] != '"' && log_layer::stripped(
            s,
        )[log_layer::stripped(s).len() - 1] != '"',
        log_layer::quoted(s) && s.len() >= 2 ==> s == seq!['"'] + log_layer::unquoted(s)
            + seq!['"'],
        !log_layer::quoted(s) ==> log_layer::unquoted(s) == s,
        log_layer::quoted(s) <==> s.len() > 0 && s[0] == '"' && s[s.len() - 1] == '"',
{
    lemma_leading(s);
    let lead = log_layer::strip_leading(s);
    lemma_trailing(lead);
    let r = log_layer::stripped(s);
    let a = s.len() - lead.len();
    let b = a + r.len();
    assert(r =~= s.subrange(a, b));
    assert(s.subrange(0, a) =~= s.take(a));
    assert(s.subrange(b, s.len() as int) =~= lead.skip(r.len() as int));
    if r.len() > 0 {
        assert(r[0] == lead[0]);
    }
    if log_layer::quoted(s) && s.len() >= 2 {
        assert(s =~= seq!['"'] + log_layer::unquoted(s) + seq!['"']);
    }
}

proof fn lemma_leading(s: Text)
    ensures
        log_layer::strip_leading(s).len() <= s.len(),
        log_layer::strip_leading(s) == s.skip(s.len() - log_layer::strip_leading(s).len()),
        quotes_only(s.take(s.len() - log_layer::strip_leading(s).len())),
        log_layer::strip_leading(s).len() > 0 ==> log_layer::strip_leading(s)[0] != '"',
    decreases s.len(),
{
    if s.len() > 0 && s[0] == '"' {
        let rest = s.drop_first();
        lemma_leading(rest);
        let r = log_layer::strip_leading(s);
        assert(r =~= s.skip(s.len() - r.len()));
        let front = s.take(s.len() - r.len());
        assert forall|i: int| 0 <= i < front.len() implies #[trigger] front[i] == '"' by {
            if i > 0 {
                assert(rest.take(rest.len() - r.len())[i - 1] == s[i]);
            }
        }
    } else {
        assert(s.skip(0) =~= s);
    }
}

proof fn lemma_trailing(s: Text)
    ensures
        log_layer::strip_trailing(s).len() <= s.len(),
        log_layer::strip_trailing(s) == s.take(log_layer::strip_trailing(s).len() as int),
        quotes_only(s.skip(log_layer::strip_trailing(s).len() as int)),
        log_layer::strip_trailing(s).len() > 0 ==> log_layer::strip_trailing(
            s,
        )[log_layer::strip_trailing(s).len() - 1] != '"',
    decreases s.len(),
{
    if s.len() > 0 && s.last() == '"' {
        let rest = s.drop_last();
        lemma_trailing(rest);
        let r = log_layer::strip_trailing(s);
        assert(r =~= s.take(r.len() as int));
        let back = s.skip(r.len() as int);
        assert forall|i: int| 0 <= i < back.len() implies #[trigger] back[i] == '"' by {
            if i < rest.len() - r.len() {
                assert(rest.skip(r.len() as int)[i] == s[r.len() + i]);
            }
        }
    } else {
        assert(s.take(s.len() as int) =~= s);
    }
}

/// A daemon that is given by its command has no directory or variables of its own, is
/// stopped by the termination signal, has a terminal, starts at once and is heard.
pub proof fn law_a_bare_daemon_has_the_defaults(name: Option<Text>, command: Text)
    ensures
        ({
            let d = schema::plain_daemon(name, command);
            &&& d.name == name && d.command == command
            &&& d.signal is Sigterm && !d.no_pty && d.silence is Off
            &&& d.working_dir is None && d.delay_ms is None && d.env.dom().is_empty()
        }),
{
}

} // verus!
