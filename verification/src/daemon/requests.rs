//! Answering API requests.
//!
//! Most requests are answered at once. Restarting a service and reloading the
//! configuration need work on the outside first; for these the engine says what
//! is to be done, and a second function gives the answer.

use crate::config::schema::Signal;
use crate::daemon::api::{ApiRequest, ApiResponse, LogModel};
use crate::daemon::engine::{self, reload_text_of, Engine, ProcessRestart};
use crate::daemon::engine_model::{self, EngineModel};
use crate::daemon::error::DaemonError;
use crate::daemon::log_model;
use crate::daemon::log_storage::{self, LogQuery, LogQueryResult, LogStorage, LogStorageError, QueryModel};
use crate::daemon::log_store::LogStore;
use crate::daemon::trigger::{ExpansionModel, Expansions, ReloadResult};
use crate::process;
use crate::process::error::ProcessError;
use crate::text::{self, cat2, cat3, cat4, cat5, str_eq, Text};
use vstd::prelude::*;

verus! {

/// What comes next for a request.
#[derive(Debug)]
pub enum RequestStep {
    /// The request is answered.
    Reply(ApiResponse),
    /// A service is to be signalled, where it runs; `process_restarted` has the
    /// answer.
    SignalService { group: String, process: String, signal: Option<(u32, Signal)> },
    /// The configuration is to be loaded and `reload_config` called;
    /// `reload_reply` has the answer.
    Reload,
}

/// The query that a request for logs makes, if it asks for a page or a search.
pub open spec fn log_query_model(
    name: Text,
    lines: Option<usize>,
    offset: Option<usize>,
    limit: Option<usize>,
    search: Option<Text>,
) -> Option<QueryModel> {
    if offset is Some || limit is Some || search is Some {
        Some(
            QueryModel {
                process: Some(name),
                offset,
                limit: if limit is Some {
                    limit
                } else {
                    lines
                },
                search,
                ..log_storage::no_filter()
            },
        )
    } else {
        None
    }
}

/// The query that a request for logs makes, if it asks for a page or a search.
/// Without a page length of its own, it takes the number of lines for it.
pub fn log_query(
    name: &str,
    lines: Option<usize>,
    offset: Option<usize>,
    limit: Option<usize>,
    search: &Option<String>,
) -> (r: Option<LogQuery>)
    ensures
        match r {
            Some(q) => Some(q@),
            None => None,
        } == log_query_model(name@, lines, offset, limit, text::opt_text(*search)),
{
    if offset.is_none() && limit.is_none() && search.is_none() {
        return None;
    }
    let mut query = if str_eq(name, "*") {
        LogQuery::all()
    } else {
        LogQuery::process(name)
    };
    if let Some(offset) = offset {
        query = query.with_offset(offset);
    }
    if let Some(limit) = limit {
        query = query.with_limit(limit);
    } else if let Some(lines) = lines {
        query = query.with_limit(lines);
    }
    if let Some(pattern) = search {
        query = query.with_search(pattern.as_str());
    }
    Some(query)
}

/// The query that a request makes, if it asks for a page of logs or a search.
pub open spec fn query_of(request: ApiRequest) -> Option<QueryModel> {
    match request {
        ApiRequest::GetLogs { name, project, lines, offset, limit, search } => log_query_model(
            name@,
            lines,
            offset,
            limit,
            text::opt_text(search),
        ),
        _ => None,
    }
}

/// The query that a request makes, if it asks for a page of logs or a search. It
/// is what a persistent backend is to be asked before the request is handled.
pub fn request_query(request: &ApiRequest) -> (r: Option<LogQuery>)
    ensures
        match r {
            Some(q) => Some(q@),
            None => None,
        } == query_of(*request),
{
    match request {
        ApiRequest::GetLogs { name, project: _, lines, offset, limit, search } => log_query(
            name.as_str(),
            *lines,
            *offset,
            *limit,
            search,
        ),
        _ => None,
    }
}

/// Whether a response shows the last `lines` of what is to be seen of a process.
pub open spec fn recent_reply(
    shown: Seq<LogModel>,
    name: Text,
    lines: Option<usize>,
    r: ApiResponse,
) -> bool {
    r matches ApiResponse::Logs { name: n, lines: logs, total_count, has_more, offset } && {
        &&& n@ == name
        &&& logs.deep_view() == match lines {
            Some(k) => text::tail(shown, k as int),
            None => shown,
        }
        &&& total_count is None && has_more is None && offset is None
    }
}

/// Whether a response shows the page that a query asks for, of what is to be seen.
pub open spec fn page_reply(
    shown: Seq<LogModel>,
    name: Text,
    query: QueryModel,
    r: ApiResponse,
) -> bool {
    r matches ApiResponse::Logs { name: n, lines: logs, total_count, has_more, offset } && {
        &&& n@ == name
        &&& total_count is Some && has_more is Some && offset is Some
        &&& log_model::answers(
            query,
            shown,
            LogQueryResult {
                logs,
                total_count: total_count->0,
                has_more: has_more->0,
                offset: offset->0,
            },
        )
    }
}

/// Whether a response gives what a persistent backend answered to a query: the
/// page, or why there is none.
pub open spec fn persisted_reply(
    answer: Result<LogQueryResult, LogStorageError>,
    name: Text,
    r: ApiResponse,
) -> bool {
    match answer {
        Ok(page) => r matches ApiResponse::Logs { name: n, lines, total_count, has_more, offset }
            && {
            &&& n@ == name
            &&& lines == page.logs
            &&& total_count == Some(page.total_count)
            &&& has_more == Some(page.has_more)
            &&& offset == Some(page.offset)
        },
        Err(e) => r.refuses(e.says()),
    }
}

/// The refusal to stop a daemon that lives inside the terminal interface.
pub open spec fn embedded_refusal() -> Text {
    "cannot stop embedded daemon; use the TUI to quit or press Ctrl+C"@
}

/// The refusal to restart a process.
pub open spec fn process_refusal(group: Text, process: Text, reason: Text) -> Text {
    "failed to restart '"@ + process + "' in group '"@ + group + "': "@ + reason
}

fn process_refusal_of(group: &str, process: &str, reason: &str) -> (r: String)
    ensures
        r@ == process_refusal(group@, process@, reason@),
{
    cat2(cat5("failed to restart '", process, "' in group '", group, "': ").as_str(), reason)
}

/// What the engine does for a request, and what it answers or asks for.
///
/// `persisted` is the answer of a persistent backend to the request's query, if
/// one is attached; a query gets that answer. The most recent lines come from the
/// store in any case.
pub open spec fn handled(
    before: EngineModel,
    after: EngineModel,
    store: LogStore,
    persisted: Option<Result<LogQueryResult, LogStorageError>>,
    request: ApiRequest,
    exp: ExpansionModel,
    r: RequestStep,
) -> bool {
    match request {
        ApiRequest::Status | ApiRequest::ListGroups => {
            &&& after == before.updated()
            &&& r matches RequestStep::Reply(ApiResponse::Status { state }) && state@
                == after.daemon_state()
        },
        ApiRequest::Subscribe => {
            &&& after == before.updated()
            &&& r == RequestStep::Reply(ApiResponse::Success { message: None })
        },
        ApiRequest::GetLogs { name, project, lines, offset, limit, search } => {
            &&& after == before
            &&& r matches RequestStep::Reply(reply) && match (query_of(request), persisted) {
                (Some(_), Some(answer)) => persisted_reply(answer, name@, reply),
                (Some(query), None) => page_reply(
                    store.shows(query.effective_process()),
                    name@,
                    query,
                    reply,
                ),
                (None, _) => recent_reply(store.shows(name@), name@, lines, reply),
            }
        },
        ApiRequest::SubscribeLogs { name } => {
            &&& after == before
            &&& r == RequestStep::Reply(ApiResponse::Success { message: None })
        },
        ApiRequest::RestartGroup { name, project } => {
            match engine_model::find(before.groups, name@) {
                Some(_) => {
                    &&& after == before.spawn_group(name@, false, exp)
                    &&& r matches RequestStep::Reply(reply) && reply.says(
                        "restart initiated for group '"@ + name@ + "'"@,
                    )
                },
                None => {
                    &&& after == before
                    &&& r matches RequestStep::Reply(reply) && reply.refuses(
                        "failed to restart group '"@ + name@ + "': "@ + ("group not found: "@
                            + name@),
                    )
                },
            }
        },
        ApiRequest::RestartProcess { group, process, project } => restarts(
            before,
            after,
            group@,
            process@,
            exp,
            r,
        ),
        ApiRequest::RestartAll => {
            &&& after == before.spawn_groups(before.order, false, exp)
            &&& r matches RequestStep::Reply(reply) && reply.says(
                "restart initiated for all groups"@,
            )
        },
        ApiRequest::ReloadConfig => after == before && r == RequestStep::Reload,
        ApiRequest::Shutdown => {
            &&& after == before
            &&& r matches RequestStep::Reply(reply) && if before.setup.embedded {
                reply.refuses(embedded_refusal())
            } else {
                reply.says("shutting down"@)
            }
        },
    }
}

/// What the engine does to restart a process, and what it answers or asks for.
pub open spec fn restarts(
    before: EngineModel,
    after: EngineModel,
    group: Text,
    process: Text,
    exp: ExpansionModel,
    r: RequestStep,
) -> bool {
    match engine_model::find(before.groups, group) {
        None => {
            &&& after == before
            &&& r matches RequestStep::Reply(reply) && reply.refuses(
                process_refusal(group, process, "group not found: "@ + group),
            )
        },
        Some(i) => {
            let g = before.managed[i];
            match engine_model::task_named(g.config.tasks, process) {
                Some(k) => {
                    let t = g.config.tasks[k];
                    match exp.of(t.command) {
                        Ok(command) => {
                            &&& after == before.spawn_task(
                                group,
                                process,
                                k,
                                command,
                                g.executor.refined(t.working_dir, t.env),
                                t.silence,
                            )
                            &&& r matches RequestStep::Reply(reply) && reply.says(
                                "restarted '"@ + process + "'"@,
                            )
                        },
                        Err(error) => {
                            &&& after == before
                            &&& r matches RequestStep::Reply(reply) && reply.refuses(
                                process_refusal(
                                    group,
                                    process,
                                    "variable expansion error: "@ + error,
                                ),
                            )
                        },
                    }
                },
                None => match engine_model::service_named(g.services, process) {
                    Some(k) => {
                        &&& after == before.log(process, group, "restarting"@)
                        &&& r matches RequestStep::SignalService {
                            group: g2,
                            process: p2,
                            signal,
                        } && g2@ == group && p2@ == process && signal == match g.services[k].pid() {
                            Some(pid) => Some((pid, g.services[k].config.signal)),
                            None => None,
                        }
                    },
                    None => {
                        &&& after == before
                        &&& r matches RequestStep::Reply(reply) && reply.refuses(
                            process_refusal(
                                group,
                                process,
                                "task '"@ + process + "' failed: "@ + ("process '"@ + process
                                    + "' not found in group '"@ + group + "'"@),
                            ),
                        )
                    },
                },
            }
        },
    }
}

impl Engine {
    /// Handle an API request, given the log store and the commands as they
    /// expand. `persisted` is what a persistent backend answers to the request's
    /// query, if one is attached.
    ///
    /// A request to subscribe is acknowledged; the stream itself is for the caller
    /// to open.
    pub fn handle_request(
        &mut self,
        store: &LogStore,
        persisted: Option<Result<LogQueryResult, LogStorageError>>,
        request: ApiRequest,
        exp: &Expansions,
    ) -> (r: RequestStep)
        requires
            old(self)@.wf(),
            store.wf(),
        ensures
            handled(old(self)@, final(self)@, *store, persisted, request, exp@, r),
            final(self)@.wf(),
            final(self)@.resolver == old(self)@.resolver,
            final(self)@.order == old(self)@.order,
    {
        match request {
            ApiRequest::Status | ApiRequest::ListGroups => {
                self.update_state();
                RequestStep::Reply(ApiResponse::Status { state: self.state().clone() })
            },
            ApiRequest::Subscribe => {
                self.update_state();
                RequestStep::Reply(ApiResponse::ok())
            },
            ApiRequest::GetLogs { name, project: _, lines, offset, limit, search } => {
                match log_query(name.as_str(), lines, offset, limit, &search) {
                    Some(query) => RequestStep::Reply(page_of(store, name, query, persisted)),
                    None => RequestStep::Reply(recent_of(store, name, lines)),
                }
            },
            ApiRequest::SubscribeLogs { name: _ } => RequestStep::Reply(ApiResponse::ok()),
            ApiRequest::RestartGroup { name, project: _ } => {
                match self.restart_group(name.as_str(), exp) {
                    Ok(()) => RequestStep::Reply(
                        ApiResponse::ok_with_message(
                            cat3("restart initiated for group '", name.as_str(), "'").as_str(),
                        ),
                    ),
                    Err(e) => RequestStep::Reply(
                        ApiResponse::error(
                            cat4(
                                "failed to restart group '",
                                name.as_str(),
                                "': ",
                                e.to_string().as_str(),
                            ).as_str(),
                        ),
                    ),
                }
            },
            ApiRequest::RestartProcess { group, process, project: _ } => {
                match self.restart_process(group.as_str(), process.as_str(), exp) {
                    Ok(ProcessRestart::Task) => RequestStep::Reply(
                        ApiResponse::ok_with_message(
                            cat3("restarted '", process.as_str(), "'").as_str(),
                        ),
                    ),
                    Ok(ProcessRestart::Service(signal)) => RequestStep::SignalService {
                        group,
                        process,
                        signal,
                    },
                    Err(e) => RequestStep::Reply(
                        ApiResponse::error(
                            process_refusal_of(
                                group.as_str(),
                                process.as_str(),
                                e.to_string().as_str(),
                            ).as_str(),
                        ),
                    ),
                }
            },
            ApiRequest::RestartAll => {
                self.restart_all(exp);
                RequestStep::Reply(ApiResponse::ok_with_message("restart initiated for all groups"))
            },
            ApiRequest::ReloadConfig => RequestStep::Reload,
            ApiRequest::Shutdown => {
                if self.is_embedded() {
                    RequestStep::Reply(
                        ApiResponse::error(
                            "cannot stop embedded daemon; use the TUI to quit or press Ctrl+C",
                        ),
                    )
                } else {
                    RequestStep::Reply(ApiResponse::ok_with_message("shutting down"))
                }
            },
        }
    }

    /// A service was signalled for a request, or could not be: its dependents
    /// restart, and the request is answered.
    pub fn process_restarted(
        &mut self,
        group: &str,
        process: &str,
        signalled: Result<(), ProcessError>,
        exp: &Expansions,
    ) -> (r: ApiResponse)
        requires
            old(self)@.wf(),
            old(self)@.acyclic(),
        ensures
            match signalled {
                Ok(()) => final(self)@ == old(self)@.restart_dependents(group@, exp@).updated()
                    && r.says("restarted '"@ + process@ + "'"@),
                Err(e) => final(self)@ == old(self)@ && r.refuses(
                    process_refusal(
                        group@,
                        process@,
                        "process error: "@ + process::error::process_error_text(e),
                    ),
                ),
            },
            final(self)@.wf(),
            final(self)@.acyclic(),
    {
        match signalled {
            Ok(()) => {
                self.process_signalled(group, exp);
                ApiResponse::ok_with_message(cat3("restarted '", process, "'").as_str())
            },
            Err(e) => {
                let e = DaemonError::Process(e);
                ApiResponse::error(
                    process_refusal_of(group, process, e.to_string().as_str()).as_str(),
                )
            },
        }
    }
}

/// The answer to a request to reload the configuration.
pub fn reload_reply(result: ReloadResult) -> (r: ApiResponse)
    ensures
        match result {
            ReloadResult::Success { added, removed, modified } => r.says(
                engine::reload_text(
                    "config reloaded: "@,
                    added@.len(),
                    removed@.len(),
                    modified@.len(),
                ),
            ),
            ReloadResult::Failed(e) => r.refuses("reload failed: "@ + e@),
        },
{
    match result {
        ReloadResult::Success { added, removed, modified } => ApiResponse::ok_with_message(
            reload_text_of(
                "config reloaded: ",
                added.len(),
                removed.len(),
                modified.len(),
            ).as_str(),
        ),
        ReloadResult::Failed(e) => ApiResponse::error(cat2("reload failed: ", e.as_str()).as_str()),
    }
}

fn recent_of(store: &LogStore, name: String, lines: Option<usize>) -> (r: ApiResponse)
    requires
        store.wf(),
    ensures
        recent_reply(store.shows(name@), name@, lines, r),
{
    match store.get(name.as_str(), lines) {
        Ok(logs) => ApiResponse::Logs {
            name,
            lines: logs,
            total_count: None,
            has_more: None,
            offset: None,
        },
        Err(_) => ApiResponse::ok(),
    }
}

fn page_of(
    store: &LogStore,
    name: String,
    query: LogQuery,
    persisted: Option<Result<LogQueryResult, LogStorageError>>,
) -> (r: ApiResponse)
    requires
        store.wf(),
    ensures
        match persisted {
            Some(answer) => persisted_reply(answer, name@, r),
            None => page_reply(store.shows(query@.effective_process()), name@, query@, r),
        },
{
    match store.query_with(query, persisted) {
        Ok(page) => page_response(name, page),
        Err(e) => ApiResponse::error(e.message()),
    }
}

/// The answer that shows a page of logs, wherever it was read from.
pub fn page_response(name: String, page: LogQueryResult) -> (r: ApiResponse)
    ensures
        r == (ApiResponse::Logs {
            name,
            lines: page.logs,
            total_count: Some(page.total_count),
            has_more: Some(page.has_more),
            offset: Some(page.offset),
        }),
{
    ApiResponse::Logs {
        name,
        lines: page.logs,
        total_count: Some(page.total_count),
        has_more: Some(page.has_more),
        offset: Some(page.offset),
    }
}

/// With a persistent backend, a query gets its answer: whatever the store holds,
/// the same is done and replied.
pub proof fn law_queries_go_to_the_persistent_backend(
    before: EngineModel,
    after: EngineModel,
    one: LogStore,
    other: LogStore,
    answer: Result<LogQueryResult, LogStorageError>,
    request: ApiRequest,
    exp: ExpansionModel,
    r: RequestStep,
)
    requires
        query_of(request) is Some,
        handled(before, after, one, Some(answer), request, exp, r),
    ensures
        handled(before, after, other, Some(answer), request, exp, r),
        r matches RequestStep::Reply(reply) && persisted_reply(
            answer,
            request->GetLogs_name@,
            reply,
        ),
{
}

/// What makes no query is handled without a persistent backend: the most recent
/// lines, and all that is no request for logs, come out the same with one, without
/// one, and with one that fails.
pub proof fn law_recent_lines_need_no_persistent_backend(
    before: EngineModel,
    after: EngineModel,
    store: LogStore,
    one: Option<Result<LogQueryResult, LogStorageError>>,
    other: Option<Result<LogQueryResult, LogStorageError>>,
    request: ApiRequest,
    exp: ExpansionModel,
    r: RequestStep,
)
    requires
        query_of(request) is None,
        handled(before, after, store, one, request, exp, r),
    ensures
        handled(before, after, store, other, request, exp, r),
{
}

} // verus!
