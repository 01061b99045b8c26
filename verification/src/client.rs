//! What the client asks the server for, and what it makes of the replies.
use crate::client_texts::{
    best_line, best_line_text, error_line, error_line_text, is_nameable, long_head, long_head_text,
    long_row, long_row_text, nameable, number, search_error_line, search_error_line_text,
    search_head, search_head_text, short_head, short_head_text, short_row, short_row_text, status,
    status_text, stored, stored_text, sweep_line, sweep_line_text, top_line, top_line_text,
    trial_line, trial_line_text, workload_line, workload_line_text,
};
use crate::cache::texts_of;
use crate::config::{CliArgs, ClientCommand};
use crate::error::{ErrorView, MiniOsError};
use crate::ipc::{CacheBenchmarkEntry, CacheSweepRow, ClientMessage, IpcClient, ServerMessage};
use crate::metadata::{ObjectInfo, ObjectInfoView};
use crate::search::option_view;
use crate::storage::infos_of;
use crate::text::{chars_of, decimal, push_decimal, same_text};
use crate::words::{
    padded, parse_unsigned, push_padded, push_repeated, repeated, trim, trimmed, unsigned_value,
};
use vstd::prelude::*;
use vstd::string::*;

verus! {

/// A client: its settings, and its end of the connection.
pub struct Client {
    pub config: CliArgs,
    pub ipc: IpcClient,
}

/// What a command takes.
pub enum Plan {
    /// A file is to be stored, in an exchange.
    Upload { name: String, file: String, content_type: String, tags: String },
    /// An object is to be fetched, in an exchange.
    Download { key: String, output: Option<String> },
    /// `notice` is shown, and one message is sent and answered.
    Ask { notice: String, message: ClientMessage },
    /// The server is to be started.
    Start { daemon: bool },
    /// The server is to be stopped.
    Stop,
}

/// What is shown before the policies are tried.
pub open spec fn trying_text(iterations: nat, sweep: bool) -> Seq<char> {
    "Running cache benchmark ("@ + decimal(iterations) + " iterations, "@ + (if sweep {
        "sweep"@
    } else {
        "standard"@
    }) + " mode)...\n\n"@
}

fn trying(iterations: usize, sweep: bool) -> (r: String)
    ensures
        r@ == trying_text(iterations as nat, sweep),
{
    let mut out = "Running cache benchmark (".to_owned();
    push_decimal(&mut out, iterations as u64);
    out.append(" iterations, ");
    out.append(
        if sweep {
            "sweep"
        } else {
            "standard"
        },
    );
    out.append(" mode)...\n\n");
    out
}

fn copy_option(s: &Option<String>) -> (r: Option<String>)
    ensures
        option_view(r) == option_view(*s),
{
    match s {
        Some(t) => Some(t.clone()),
        None => None,
    }
}

/// Whether the plan is to show a notice and to send a message.
pub open spec fn asks(p: Plan, notice: Seq<char>, m: spec_fn(ClientMessage) -> bool) -> bool {
    p matches Plan::Ask { notice: n, message } && n@ == notice && m(message)
}

impl Client {
    /// Makes a client with the given settings.
    pub fn new(config: CliArgs) -> (r: Client)
        ensures
            r.config == config,
            r.ipc.socket_path@ == config.socket_path@,
    {
        let ipc = IpcClient::new(config.socket_path.as_str());
        Client { config, ipc }
    }

    /// What a command takes.
    pub fn execute(&self, command: &ClientCommand) -> (r: Plan)
        ensures
            match *command {
                ClientCommand::Put { name, file, content_type, tags } => {
                    &&& r matches Plan::Upload { name: n, file: f, content_type: c, tags: t }
                    &&& n@ == name@
                    &&& f@ == file@
                    &&& c@ == content_type@
                    &&& t@ == tags@
                },
                ClientCommand::Get { key, output } => {
                    &&& r matches Plan::Download { key: k, output: o }
                    &&& k@ == key@
                    &&& option_view(o) == option_view(output)
                },
                ClientCommand::Delete { key } => asks(
                    r,
                    "Deleting '"@ + key@ + "'...\n"@,
                    |m: ClientMessage| m matches ClientMessage::Delete { key: k } && k@ == key@,
                ),
                ClientCommand::List { .. } => asks(
                    r,
                    ""@,
                    |m: ClientMessage| m is List,
                ),
                ClientCommand::Search { name, tag, content_type, after, before } => asks(
                    r,
                    ""@,
                    |m: ClientMessage|
                        {
                            &&& m matches ClientMessage::Search {
                                name: n,
                                tag: t,
                                content_type: c,
                                after: a,
                                before: b,
                            }
                            &&& option_view(n) == option_view(name)
                            &&& option_view(t) == option_view(tag)
                            &&& option_view(c) == option_view(content_type)
                            &&& option_view(a) == option_view(after)
                            &&& option_view(b) == option_view(before)
                        },
                ),
                ClientCommand::Status => asks(r, ""@, |m: ClientMessage| m is Status),
                ClientCommand::CacheResize { capacity } => asks(
                    r,
                    "Resizing cache to "@ + decimal(capacity as nat) + " entries...\n"@,
                    |m: ClientMessage|
                        m matches ClientMessage::CacheResize { capacity: c } && c == capacity,
                ),
                ClientCommand::CacheSwitch { algorithm } => asks(
                    r,
                    "Switching cache algorithm to "@ + algorithm@ + "...\n"@,
                    |m: ClientMessage|
                        m matches ClientMessage::CacheSwitch { algorithm: a } && a@ == algorithm@,
                ),
                ClientCommand::CacheBenchmark { iterations, sweep } => asks(
                    r,
                    trying_text(iterations as nat, sweep),
                    |m: ClientMessage|
                        m matches ClientMessage::CacheBenchmark { iterations: i, sweep: s } && i
                            == iterations && s == sweep,
                ),
                ClientCommand::Start { daemon } => r matches Plan::Start { daemon: d } && d
                    == daemon,
                ClientCommand::Stop => r is Stop,
            },
    {
        match command {
            ClientCommand::Put { name, file, content_type, tags } => Plan::Upload {
                name: name.clone(),
                file: file.clone(),
                content_type: content_type.clone(),
                tags: tags.clone(),
            },
            ClientCommand::Get { key, output } => Plan::Download {
                key: key.clone(),
                output: copy_option(output),
            },
            ClientCommand::Delete { key } => {
                let mut notice = "Deleting '".to_owned();
                notice.append(key.as_str());
                notice.append("'...\n");
                Plan::Ask { notice, message: ClientMessage::Delete { key: key.clone() } }
            },
            ClientCommand::List { .. } => Plan::Ask {
                notice: "".to_owned(),
                message: ClientMessage::List,
            },
            ClientCommand::Search { name, tag, content_type, after, before } => Plan::Ask {
                notice: "".to_owned(),
                message: ClientMessage::Search {
                    name: copy_option(name),
                    tag: copy_option(tag),
                    content_type: copy_option(content_type),
                    after: copy_option(after),
                    before: copy_option(before),
                },
            },
            ClientCommand::Status => Plan::Ask {
                notice: "".to_owned(),
                message: ClientMessage::Status,
            },
            ClientCommand::CacheResize { capacity } => {
                let mut notice = "Resizing cache to ".to_owned();
                push_decimal(&mut notice, *capacity as u64);
                notice.append(" entries...\n");
                Plan::Ask { notice, message: ClientMessage::CacheResize { capacity: *capacity } }
            },
            ClientCommand::CacheSwitch { algorithm } => {
                let mut notice = "Switching cache algorithm to ".to_owned();
                notice.append(algorithm.as_str());
                notice.append("...\n");
                Plan::Ask {
                    notice,
                    message: ClientMessage::CacheSwitch { algorithm: algorithm.clone() },
                }
            },
            ClientCommand::CacheBenchmark { iterations, sweep } => Plan::Ask {
                notice: trying(*iterations, *sweep),
                message: ClientMessage::CacheBenchmark { iterations: *iterations, sweep: *sweep },
            },
            ClientCommand::Start { daemon } => Plan::Start { daemon: *daemon },
            ClientCommand::Stop => Plan::Stop,
        }
    }
}

// Replies.

/// What becomes of a reply.
#[derive(Debug)]
pub enum Outcome {
    /// A text is shown.
    Print(String),
    /// A text is shown as an error.
    Complain(String),
    /// The reply is shown as it is, as an error: it is not one that was asked for.
    Unexpected,
}

/// Whether this text is shown.
pub open spec fn prints(o: Outcome, text: Seq<char>) -> bool {
    o matches Outcome::Print(t) && t@ == text
}

/// Whether this text is shown as an error.
pub open spec fn complains(o: Outcome, text: Seq<char>) -> bool {
    o matches Outcome::Complain(t) && t@ == text
}

/// What becomes of a reply that is not the one that was hoped for.
pub open spec fn refused(o: Outcome, m: ServerMessage) -> bool {
    match m {
        ServerMessage::Error { code, message } => complains(
            o,
            error_line_text(code@, message@),
        ),
        _ => o is Unexpected,
    }
}

fn refusal(m: &ServerMessage) -> (r: Outcome)
    ensures
        refused(r, *m),
{
    match m {
        ServerMessage::Error { code, message } => Outcome::Complain(
            error_line(code.as_str(), message.as_str()),
        ),
        _ => Outcome::Unexpected,
    }
}

/// The text of a message that says that all is done.
pub open spec fn done_text(message: Option<Seq<char>>, default: Seq<char>) -> Seq<char> {
    "✓ "@ + (match message {
        Some(t) => t,
        None => default,
    }) + "\n"@
}

/// What becomes of the reply to a request that is just done. `default` stands for a
/// missing text.
pub fn done_reply(m: &ServerMessage, default: &str) -> (r: Outcome)
    ensures
        match *m {
            ServerMessage::Done { message } => prints(
                r,
                done_text(option_view(message), default@),
            ),
            _ => refused(r, *m),
        },
{
    match m {
        ServerMessage::Done { message } => {
            let text = match message {
                Some(t) => t.as_str(),
                None => default,
            };
            let mut out = "✓ ".to_owned();
            out.append(text);
            out.append("\n");
            Outcome::Print(out)
        },
        _ => refusal(m),
    }
}

/// What becomes of the reply to a request to delete an object.
pub fn delete_reply(m: &ServerMessage) -> (r: Outcome)
    ensures
        match *m {
            ServerMessage::Done { message } => prints(
                r,
                done_text(option_view(message), "Deleted"@),
            ),
            _ => refused(r, *m),
        },
{
    done_reply(m, "Deleted")
}

/// What becomes of the reply to a request that changes the cache.
pub fn cache_reply(m: &ServerMessage) -> (r: Outcome)
    ensures
        match *m {
            ServerMessage::Done { message } => prints(r, done_text(option_view(message), ""@)),
            _ => refused(r, *m),
        },
{
    done_reply(m, "")
}

// Lists.

/// Whether the names of all the objects can be shown in a column.
pub open spec fn all_nameable(infos: Seq<ObjectInfoView>) -> bool {
    forall|i: int| 0 <= i < infos.len() ==> nameable((#[trigger] infos[i]).name)
}

fn are_nameable(objects: &Vec<ObjectInfo>) -> (r: bool)
    ensures
        r == all_nameable(infos_of(objects@)),
{
    let ghost infos = infos_of(objects@);
    let mut i: usize = 0;
    while i < objects.len()
        invariant
            i <= objects@.len(),
            infos == infos_of(objects@),
            forall|j: int| 0 <= j < i ==> nameable((#[trigger] infos[j]).name),
        decreases objects@.len() - i,
    {
        assert(infos[i as int] == objects@[i as int]@);
        if !is_nameable(objects[i].name.as_str()) {
            return false;
        }
        i += 1;
    }
    true
}

/// Whether the names of all the objects of a list can be shown in a column.
pub fn is_showable(m: &ServerMessage) -> (r: bool)
    ensures
        r == (m matches ServerMessage::ObjectList { objects } ==> all_nameable(infos_of(objects@))),
{
    match m {
        ServerMessage::ObjectList { objects } => are_nameable(objects),
        _ => true,
    }
}

/// The rows of the first `n` objects.
pub open spec fn rows_text(infos: Seq<ObjectInfoView>, long: bool, n: int) -> Seq<char>
    decreases n,
{
    if n <= 0 {
        Seq::empty()
    } else {
        rows_text(infos, long, n - 1) + (if long {
            long_row_text(infos[n - 1])
        } else {
            short_row_text(infos[n - 1])
        })
    }
}

fn rows(objects: &Vec<ObjectInfo>, long: bool) -> (r: String)
    requires
        all_nameable(infos_of(objects@)),
    ensures
        r@ == rows_text(infos_of(objects@), long, objects@.len() as int),
{
    let ghost infos = infos_of(objects@);
    let mut out = String::new();
    let mut i: usize = 0;
    while i < objects.len()
        invariant
            i <= objects@.len(),
            infos == infos_of(objects@),
            all_nameable(infos),
            out@ == rows_text(infos, long, i as int),
        decreases objects@.len() - i,
    {
        assert(infos[i as int] == objects@[i as int]@);
        let row = if long {
            long_row(&objects[i])
        } else {
            short_row(&objects[i])
        };
        out.append(row.as_str());
        i += 1;
    }
    out
}

/// A line of `n` hyphens.
pub open spec fn rule_text(n: nat) -> Seq<char> {
    repeated('-', n) + "\n"@
}

fn rule(n: usize) -> (r: String)
    ensures
        r@ == rule_text(n as nat),
{
    let mut out = String::new();
    push_repeated(&mut out, '-', n);
    assert(out@ =~= repeated('-', n as nat));
    out.append("\n");
    out
}

/// What is shown of a list.
pub open spec fn list_text(infos: Seq<ObjectInfoView>, long: bool) -> Seq<char> {
    if infos.len() == 0 {
        "No objects stored.\n"@
    } else {
        "Objects: "@ + decimal(infos.len()) + "\n\n"@ + (if long {
            long_head_text()
        } else {
            short_head_text()
        }) + rule_text(
            if long {
                120
            } else {
                80
            },
        ) + rows_text(infos, long, infos.len() as int)
    }
}

/// What becomes of the reply to a request for a list.
pub fn list_reply(m: &ServerMessage, long: bool) -> (r: Outcome)
    requires
        m matches ServerMessage::ObjectList { objects } ==> all_nameable(infos_of(objects@)),
    ensures
        match *m {
            ServerMessage::ObjectList { objects } => prints(
                r,
                list_text(infos_of(objects@), long),
            ),
            _ => refused(r, *m),
        },
{
    match m {
        ServerMessage::ObjectList { objects } => {
            assert(infos_of(objects@).len() == objects@.len());
            if objects.len() == 0 {
                return Outcome::Print("No objects stored.\n".to_owned());
            }
            let mut out = "Objects: ".to_owned();
            push_decimal(&mut out, objects.len() as u64);
            out.append("\n\n");
            let head = if long {
                long_head()
            } else {
                short_head()
            };
            out.append(head.as_str());
            let line = rule(
                if long {
                    120
                } else {
                    80
                },
            );
            out.append(line.as_str());
            let table = rows(objects, long);
            out.append(table.as_str());
            Outcome::Print(out)
        },
        _ => refusal(m),
    }
}

/// What is shown of what a search found.
pub open spec fn found_text(infos: Seq<ObjectInfoView>) -> Seq<char> {
    if infos.len() == 0 {
        "没有匹配的对象。\n"@
    } else {
        "找到 "@ + decimal(infos.len()) + " 个对象:\n\n"@ + search_head_text() + rule_text(120)
            + rows_text(infos, true, infos.len() as int)
    }
}

/// What becomes of the reply to a search.
pub fn search_reply(m: &ServerMessage) -> (r: Outcome)
    requires
        m matches ServerMessage::ObjectList { objects } ==> all_nameable(infos_of(objects@)),
    ensures
        match *m {
            ServerMessage::ObjectList { objects } => prints(r, found_text(infos_of(objects@))),
            ServerMessage::Error { code, message } => complains(
                r,
                search_error_line_text(code@, message@),
            ),
            _ => r is Unexpected,
        },
{
    match m {
        ServerMessage::ObjectList { objects } => {
            assert(infos_of(objects@).len() == objects@.len());
            if objects.len() == 0 {
                return Outcome::Print("没有匹配的对象。\n".to_owned());
            }
            let mut out = "找到 ".to_owned();
            push_decimal(&mut out, objects.len() as u64);
            out.append(" 个对象:\n\n");
            let head = search_head();
            out.append(head.as_str());
            let line = rule(120);
            out.append(line.as_str());
            let table = rows(objects, true);
            out.append(table.as_str());
            Outcome::Print(out)
        },
        ServerMessage::Error { code, message } => Outcome::Complain(
            search_error_line(code.as_str(), message.as_str()),
        ),
        _ => Outcome::Unexpected,
    }
}

/// What becomes of the reply to a request for the figures of the server. `rate` is
/// the hit rate in percent.
pub fn status_reply(m: &ServerMessage, rate: &str) -> (r: Outcome)
    ensures
        match *m {
            ServerMessage::Status(t) => prints(r, status_text(t, rate@)),
            _ => refused(r, *m),
        },
{
    match m {
        ServerMessage::Status(t) => Outcome::Print(status(t, rate)),
        _ => refusal(m),
    }
}

// Trials.

/// The place of a policy among the others.
pub open spec fn rank_text(i: int) -> Seq<char> {
    if i == 0 {
        "1st"@
    } else if i == 1 {
        "2nd"@
    } else if i == 2 {
        "3rd"@
    } else {
        decimal((i + 1) as nat) + "."@
    }
}

fn rank_of(i: usize) -> (r: String)
    requires
        i < usize::MAX,
    ensures
        r@ == rank_text(i as int),
{
    if i == 0 {
        "1st".to_owned()
    } else if i == 1 {
        "2nd".to_owned()
    } else if i == 2 {
        "3rd".to_owned()
    } else {
        let mut out = String::new();
        push_decimal(&mut out, i as u64 + 1);
        assert(out@ =~= decimal((i + 1) as nat));
        out.append(".");
        out
    }
}

/// The rows of the first `n` policies. The rates are percentages.
pub open spec fn trial_lines_text(
    list: Seq<CacheBenchmarkEntry>,
    rates: Seq<Seq<char>>,
    n: int,
) -> Seq<char>
    decreases n,
{
    if n <= 0 {
        Seq::empty()
    } else {
        trial_lines_text(list, rates, n - 1) + trial_line_text(
            rank_text(n - 1),
            list[n - 1],
            rates[n - 1],
        )
    }
}

fn trial_lines(list: &Vec<CacheBenchmarkEntry>, rates: &Vec<String>) -> (r: String)
    requires
        rates@.len() == list@.len(),
    ensures
        r@ == trial_lines_text(list@, texts_of(rates@), list@.len() as int),
{
    let ghost texts = texts_of(rates@);
    let mut out = String::new();
    let mut i: usize = 0;
    while i < list.len()
        invariant
            i <= list@.len(),
            rates@.len() == list@.len(),
            texts == texts_of(rates@),
            out@ == trial_lines_text(list@, texts, i as int),
        decreases list@.len() - i,
    {
        assert(texts[i as int] == rates@[i as int]@);
        let rank = rank_of(i);
        let line = trial_line(rank.as_str(), &list[i], rates[i].as_str());
        out.append(line.as_str());
        i += 1;
    }
    out
}

/// The headings of a trial, and the line below them.
pub open spec fn trial_head_text() -> Seq<char> {
    "  "@ + padded("Rank"@, 6) + " "@ + padded("Algorithm"@, 12) + " "@ + padded("Hits"@, 12)
        + " "@ + padded("Misses"@, 12) + " "@ + padded("Hit Rate"@, 12) + "\n  "@ + rule_text(60)
}

fn trial_head() -> (r: String)
    ensures
        r@ == trial_head_text(),
{
    let mut out = "  ".to_owned();
    push_padded(&mut out, "Rank", 6);
    out.append(" ");
    push_padded(&mut out, "Algorithm", 12);
    out.append(" ");
    push_padded(&mut out, "Hits", 12);
    out.append(" ");
    push_padded(&mut out, "Misses", 12);
    out.append(" ");
    push_padded(&mut out, "Hit Rate", 12);
    out.append("\n  ");
    let line = rule(60);
    out.append(line.as_str());
    out
}

/// What is shown of a trial.
pub open spec fn trials_text(
    list: Seq<CacheBenchmarkEntry>,
    rates: Seq<Seq<char>>,
    keys: nat,
    iterations: nat,
) -> Seq<char> {
    workload_line_text(keys, iterations) + trial_head_text() + trial_lines_text(
        list,
        rates,
        list.len() as int,
    ) + "\n"@ + (if list.len() > 0 {
        best_line_text(list[0], rates[0])
    } else {
        ""@
    })
}

fn trials_shown(
    list: &Vec<CacheBenchmarkEntry>,
    rates: &Vec<String>,
    keys: usize,
    iterations: usize,
) -> (r: String)
    requires
        rates@.len() == list@.len(),
    ensures
        r@ == trials_text(list@, texts_of(rates@), keys as nat, iterations as nat),
{
    let mut out = workload_line(keys, iterations);
    let head = trial_head();
    out.append(head.as_str());
    let lines = trial_lines(list, rates);
    out.append(lines.as_str());
    out.append("\n");
    if list.len() > 0 {
        assert(texts_of(rates@)[0] == rates@[0]@);
        let best = best_line(&list[0], rates[0].as_str());
        out.append(best.as_str());
    } else {
        out.append("");
    }
    out
}

/// The rows of the first `n` policies with their capacities.
pub open spec fn sweep_lines_text(list: Seq<CacheSweepRow>, rates: Seq<Seq<char>>, n: int) -> Seq<
    char,
>
    decreases n,
{
    if n <= 0 {
        Seq::empty()
    } else {
        sweep_lines_text(list, rates, n - 1) + sweep_line_text(list[n - 1], rates[n - 1])
    }
}

/// The first `n` of the best policies with their capacities.
pub open spec fn top_lines_text(list: Seq<CacheSweepRow>, rates: Seq<Seq<char>>, n: int) -> Seq<
    char,
>
    decreases n,
{
    if n <= 0 {
        Seq::empty()
    } else {
        top_lines_text(list, rates, n - 1) + top_line_text(n as nat, list[n - 1], rates[n - 1])
    }
}

fn sweep_lines(list: &Vec<CacheSweepRow>, rates: &Vec<String>) -> (r: String)
    requires
        rates@.len() == list@.len(),
    ensures
        r@ == sweep_lines_text(list@, texts_of(rates@), list@.len() as int),
{
    let ghost texts = texts_of(rates@);
    let mut out = String::new();
    let mut i: usize = 0;
    while i < list.len()
        invariant
            i <= list@.len(),
            rates@.len() == list@.len(),
            texts == texts_of(rates@),
            out@ == sweep_lines_text(list@, texts, i as int),
        decreases list@.len() - i,
    {
        assert(texts[i as int] == rates@[i as int]@);
        let line = sweep_line(&list[i], rates[i].as_str());
        out.append(line.as_str());
        i += 1;
    }
    out
}

/// How many of the rows are among the best.
pub open spec fn top_len(n: nat) -> int {
    if n < 3 {
        n as int
    } else {
        3
    }
}

fn top_lines(list: &Vec<CacheSweepRow>, rates: &Vec<String>) -> (r: String)
    requires
        rates@.len() == list@.len(),
    ensures
        r@ == top_lines_text(list@, texts_of(rates@), top_len(list@.len())),
{
    let ghost texts = texts_of(rates@);
    let mut out = String::new();
    let mut i: usize = 0;
    while i < list.len() && i < 3
        invariant
            i <= list@.len(),
            i <= 3,
            rates@.len() == list@.len(),
            texts == texts_of(rates@),
            out@ == top_lines_text(list@, texts, i as int),
        decreases list@.len() - i,
    {
        assert(texts[i as int] == rates@[i as int]@);
        let line = top_line(i + 1, &list[i], rates[i].as_str());
        out.append(line.as_str());
        i += 1;
    }
    out
}

/// The headings of a sweep, and the line below them.
pub open spec fn sweep_head_text() -> Seq<char> {
    "  "@ + padded("Capacity"@, 8) + " "@ + padded("Alg"@, 8) + " "@ + padded("Hits"@, 10) + " "@
        + padded("Misses"@, 10) + " "@ + padded("Hit Rate"@, 10) + "\n  "@ + rule_text(52)
}

fn sweep_head() -> (r: String)
    ensures
        r@ == sweep_head_text(),
{
    let mut out = "  ".to_owned();
    push_padded(&mut out, "Capacity", 8);
    out.append(" ");
    push_padded(&mut out, "Alg", 8);
    out.append(" ");
    push_padded(&mut out, "Hits", 10);
    out.append(" ");
    push_padded(&mut out, "Misses", 10);
    out.append(" ");
    push_padded(&mut out, "Hit Rate", 10);
    out.append("\n  ");
    let line = rule(52);
    out.append(line.as_str());
    out
}

/// What is shown of a sweep.
pub open spec fn sweep_shown_text(
    list: Seq<CacheSweepRow>,
    rates: Seq<Seq<char>>,
    keys: nat,
    iterations: nat,
) -> Seq<char> {
    workload_line_text(keys, iterations) + sweep_head_text() + sweep_lines_text(
        list,
        rates,
        list.len() as int,
    ) + "\n  Top 3 (algorithm, capacity) configurations:\n"@ + top_lines_text(
        list,
        rates,
        top_len(list.len()),
    )
}

fn sweep_shown(
    list: &Vec<CacheSweepRow>,
    rates: &Vec<String>,
    keys: usize,
    iterations: usize,
) -> (r: String)
    requires
        rates@.len() == list@.len(),
    ensures
        r@ == sweep_shown_text(list@, texts_of(rates@), keys as nat, iterations as nat),
{
    let mut out = workload_line(keys, iterations);
    let head = sweep_head();
    out.append(head.as_str());
    let lines = sweep_lines(list, rates);
    out.append(lines.as_str());
    out.append("\n  Top 3 (algorithm, capacity) configurations:\n");
    let top = top_lines(list, rates);
    out.append(top.as_str());
    out
}

/// How many hit rates go with a reply.
pub open spec fn rates_for(m: ServerMessage) -> nat {
    match m {
        ServerMessage::CacheBenchmarkResult { benchmarks, .. } => benchmarks@.len(),
        ServerMessage::CacheBenchmarkSweep { rows, .. } => rows@.len(),
        _ => 0,
    }
}

/// What becomes of the reply to a request to try the policies. The rates are the hit
/// rates of the rows in percent.
pub fn benchmark_reply(m: &ServerMessage, rates: &Vec<String>) -> (r: Outcome)
    requires
        rates@.len() == rates_for(*m),
    ensures
        match *m {
            ServerMessage::CacheBenchmarkResult { benchmarks, workload_keys, iterations } => prints(
                r,
                trials_text(
                    benchmarks@,
                    texts_of(rates@),
                    workload_keys as nat,
                    iterations as nat,
                ),
            ),
            ServerMessage::CacheBenchmarkSweep { rows, workload_keys, iterations } => prints(
                r,
                sweep_shown_text(
                    rows@,
                    texts_of(rates@),
                    workload_keys as nat,
                    iterations as nat,
                ),
            ),
            _ => refused(r, *m),
        },
{
    match m {
        ServerMessage::CacheBenchmarkResult { benchmarks, workload_keys, iterations } => {
            Outcome::Print(trials_shown(benchmarks, rates, *workload_keys, *iterations))
        },
        ServerMessage::CacheBenchmarkSweep { rows, workload_keys, iterations } => {
            Outcome::Print(sweep_shown(rows, rates, *workload_keys, *iterations))
        },
        _ => refusal(m),
    }
}

// Storing an object.

/// What `serde_json::from_str` finds wrong with a text that is to be JSON.
pub uninterp spec fn json_fault(text: Seq<char>) -> Option<Seq<char>>;

/// Calls `serde_json::from_str` for a `serde_json::Value`. Claimed: whether it
/// succeeds, and the description of its error, depend on the text alone.
#[verifier::external_body]
pub(crate) fn check_json(text: &str) -> (r: Option<String>)
    ensures
        match r {
            Some(e) => json_fault(text@) == Some(e@),
            None => json_fault(text@) is None,
        },
{
    serde_json::from_str::<serde_json::Value>(text).err().map(|e| e.to_string())
}

/// What is wrong with tags that are not JSON.
pub open spec fn tags_fault(tags: Seq<char>, fault: Option<Seq<char>>) -> Option<ErrorView> {
    if tags == "{}"@ {
        None
    } else {
        match fault {
            Some(e) => Some(ErrorView::InvalidArgument("Invalid tags JSON: "@ + e)),
            None => None,
        }
    }
}

/// Judges tags by what was found wrong with them as JSON.
pub fn judge_tags(tags: &str, fault: Option<String>) -> (r: Result<(), MiniOsError>)
    ensures
        match r {
            Ok(_) => tags_fault(tags@, option_view(fault)) is None,
            Err(e) => tags_fault(tags@, option_view(fault)) == Some(e@),
        },
{
    if same_text(tags, "{}") {
        return Ok(());
    }
    match fault {
        None => Ok(()),
        Some(e) => {
            let mut text = "Invalid tags JSON: ".to_owned();
            text.append(e.as_str());
            Err(MiniOsError::InvalidArgument(text))
        },
    }
}

/// Whether the tags are JSON.
pub fn check_tags(tags: &str) -> (r: Result<(), MiniOsError>)
    ensures
        match r {
            Ok(_) => tags_fault(tags@, json_fault(tags@)) is None,
            Err(e) => tags_fault(tags@, json_fault(tags@)) == Some(e@),
        },
{
    judge_tags(tags, check_json(tags))
}

/// The error for a file that does not exist.
pub fn no_file(path: &str) -> (r: MiniOsError)
    ensures
        r@ == ErrorView::Client("File not found: "@ + path@),
{
    let mut text = "File not found: ".to_owned();
    text.append(path);
    MiniOsError::Client(text)
}

/// The error for a file that cannot be read.
pub fn unreadable_file(path: &str, e: &str) -> (r: MiniOsError)
    ensures
        r@ == ErrorView::Client("Cannot read file '"@ + path@ + "': "@ + e@),
{
    let mut text = "Cannot read file '".to_owned();
    text.append(path);
    text.append("': ");
    text.append(e);
    MiniOsError::Client(text)
}

/// The error for a file that cannot be written.
pub fn unwritable_file(path: &str, e: &str) -> (r: MiniOsError)
    ensures
        r@ == ErrorView::Client("Cannot write output file '"@ + path@ + "': "@ + e@),
{
    let mut text = "Cannot write output file '".to_owned();
    text.append(path);
    text.append("': ");
    text.append(e);
    MiniOsError::Client(text)
}

/// What comes next in an exchange of data.
#[derive(Debug)]
pub enum Transfer {
    /// These shared pages are used.
    Pages { uuid: String, start: u32, count: u32, size: u64 },
    /// The exchange is over.
    Over(Outcome),
}

/// What comes of the first reply in an exchange of data.
pub fn ready_reply(m: &ServerMessage) -> (r: Transfer)
    ensures
        match *m {
            ServerMessage::DataReady { uuid, start_page, page_count, page_size: _, data_size } => {
                &&& r matches Transfer::Pages { uuid: u, start, count, size }
                &&& u@ == uuid@
                &&& start == start_page
                &&& count == page_count
                &&& size == data_size
            },
            _ => r matches Transfer::Over(o) && refused(o, *m),
        },
{
    match m {
        ServerMessage::DataReady { uuid, start_page, page_count, page_size: _, data_size } => {
            Transfer::Pages {
                uuid: uuid.clone(),
                start: *start_page,
                count: *page_count,
                size: *data_size,
            }
        },
        _ => Transfer::Over(refusal(m)),
    }
}

/// The message that ends the use of the shared pages.
pub fn done_message(uuid: &str, count: u32) -> (r: ClientMessage)
    ensures
        r matches ClientMessage::DataDone { uuid: u, pages_used } && u@ == uuid@ && pages_used
            == count,
{
    ClientMessage::DataDone { uuid: uuid.to_owned(), pages_used: count }
}

/// The message that asks for an object to be stored.
pub fn put_message(name: &str, size: u64, content_type: &str, tags: &str) -> (r: ClientMessage)
    ensures
        r matches ClientMessage::Put { name: n, size: z, content_type: c, tags: t } && n@ == name@
            && z == size && c@ == content_type@ && t@ == tags@,
{
    ClientMessage::Put {
        name: name.to_owned(),
        size,
        content_type: content_type.to_owned(),
        tags: tags.to_owned(),
    }
}

/// The message that asks for an object.
pub fn get_message(key: &str) -> (r: ClientMessage)
    ensures
        r matches ClientMessage::Get { key: k } && k@ == key@,
{
    ClientMessage::Get { key: key.to_owned() }
}

/// What becomes of the last reply in the exchange that stores an object.
pub fn stored_reply(m: &ServerMessage) -> (r: Outcome)
    ensures
        match *m {
            ServerMessage::ObjectInfo(info) => prints(r, stored_text(info@)),
            _ => refused(r, *m),
        },
{
    match m {
        ServerMessage::ObjectInfo(info) => Outcome::Print(stored(info)),
        _ => refusal(m),
    }
}

// Fetching an object.

/// What is known of the object that is fetched, or what is shown where the server
/// does not tell.
pub fn fetched_reply(m: &ServerMessage) -> (r: Result<ObjectInfo, Outcome>)
    ensures
        match *m {
            ServerMessage::ObjectInfo(info) => r matches Ok(i) && i@ == info@,
            _ => r matches Err(o) && refused(o, *m),
        },
{
    match m {
        ServerMessage::ObjectInfo(info) => Ok(info.clone()),
        _ => Err(refusal(m)),
    }
}

/// Where the data goes: to the given path, or else to a file with the object's name.
pub fn output_path(output: &Option<String>, name: &str) -> (r: String)
    ensures
        r@ == (match option_view(*output) {
            Some(path) => path,
            None => name@,
        }),
{
    match output {
        Some(path) => path.clone(),
        None => name.to_owned(),
    }
}

/// Whether a path stands for the standard output.
pub fn is_stdout(path: &str) -> (r: bool)
    ensures
        r == (path@ == "-"@),
{
    same_text(path, "-")
}

// Starting and stopping the server.

/// The arguments that the server is started with in the background.
pub open spec fn daemon_arguments(c: CliArgs) -> Seq<Seq<char>> {
    seq![
        "--server"@,
        "--socket-path"@,
        c.socket_path@,
        "--shm-name"@,
        c.shm_name@,
        "--shm-size"@,
        decimal(c.shm_size as nat),
        "--page-size"@,
        decimal(c.page_size as nat),
        "--store-path"@,
        c.store_path@,
        "--block-size"@,
        decimal(c.block_size as nat),
        "--total-blocks"@,
        decimal(c.total_blocks as nat),
        "--max-objects"@,
        decimal(c.max_objects as nat),
        "--cache-capacity"@,
        decimal(c.cache_capacity as nat),
        "--cache-warmup"@,
        decimal(c.cache_warmup as nat),
        "--log-level"@,
        c.log_level@,
    ]
}

fn push_argument(list: &mut Vec<String>, name: &str, value: &str)
    ensures
        texts_of(final(list)@) == texts_of(old(list)@).push(name@).push(value@),
{
    list.push(name.to_owned());
    list.push(value.to_owned());
    assert(texts_of(list@) =~= texts_of(old(list)@).push(name@).push(value@));
}

/// The arguments that the server is started with in the background.
pub fn daemon_args(c: &CliArgs) -> (r: Vec<String>)
    ensures
        texts_of(r@) == daemon_arguments(*c),
{
    let mut list: Vec<String> = Vec::new();
    list.push("--server".to_owned());
    assert(texts_of(list@) =~= seq!["--server"@]);
    push_argument(&mut list, "--socket-path", c.socket_path.as_str());
    push_argument(&mut list, "--shm-name", c.shm_name.as_str());
    push_argument(&mut list, "--shm-size", number(c.shm_size as u64).as_str());
    push_argument(&mut list, "--page-size", number(c.page_size as u64).as_str());
    push_argument(&mut list, "--store-path", c.store_path.as_str());
    push_argument(&mut list, "--block-size", number(c.block_size as u64).as_str());
    push_argument(&mut list, "--total-blocks", number(c.total_blocks).as_str());
    push_argument(&mut list, "--max-objects", number(c.max_objects).as_str());
    push_argument(&mut list, "--cache-capacity", number(c.cache_capacity as u64).as_str());
    push_argument(&mut list, "--cache-warmup", number(c.cache_warmup as u64).as_str());
    push_argument(&mut list, "--log-level", c.log_level.as_str());
    assert(texts_of(list@) =~= daemon_arguments(*c));
    list
}

/// What is shown where the server runs already. `reply` is what it says of its
/// figures, if it says anything.
pub fn already_running(socket_path: &str, reply: &Option<ServerMessage>) -> (r: String)
    ensures
        r@ == "Server is already running (socket "@ + socket_path@ + " exists).\n"@ + (match *reply {
            Some(ServerMessage::Status(t)) => "  Uptime: "@ + decimal(t.uptime_seconds as nat)
                + "s\n"@,
            _ => ""@,
        }),
{
    let mut out = "Server is already running (socket ".to_owned();
    out.append(socket_path);
    out.append(" exists).\n");
    match reply {
        Some(ServerMessage::Status(t)) => {
            let mut line = "  Uptime: ".to_owned();
            push_decimal(&mut line, t.uptime_seconds);
            line.append("s\n");
            out.append(line.as_str());
        },
        _ => {
            out.append("");
        },
    }
    out
}

/// What comes of the reply to a request to stop.
#[derive(Debug)]
pub enum Stopping {
    /// The server stops: a text is shown, and the file with its process is removed.
    Stopped(String),
    /// The server does not stop by itself: a text is shown as an error, and its
    /// process is ended.
    Force(String),
    /// Nothing is done.
    Nothing,
}

/// What comes of the reply to a request to stop.
pub fn stop_reply(m: &ServerMessage) -> (r: Stopping)
    ensures
        match *m {
            ServerMessage::Done { message } => r matches Stopping::Stopped(t) && t@ == done_text(
                option_view(message),
                "Server stopped"@,
            ),
            ServerMessage::Error { code, message } => r matches Stopping::Force(t) && t@
                == error_line_text(code@, message@),
            _ => r is Nothing,
        },
{
    match m {
        ServerMessage::Done { .. } => match done_reply(m, "Server stopped") {
            Outcome::Print(t) => Stopping::Stopped(t),
            _ => Stopping::Nothing,
        },
        ServerMessage::Error { code, message } => Stopping::Force(
            error_line(code.as_str(), message.as_str()),
        ),
        _ => Stopping::Nothing,
    }
}

/// What comes of a request to stop that does not reach the server.
pub fn stop_failed(e: &str) -> (r: Stopping)
    ensures
        r matches Stopping::Force(t) && t@ == "Could not connect to server: "@ + e@ + "\n"@,
{
    let mut text = "Could not connect to server: ".to_owned();
    text.append(e);
    text.append("\n");
    Stopping::Force(text)
}

/// The number of a process in the text of a file: a number with white space around
/// it.
pub open spec fn pid_in(text: Seq<char>) -> Option<nat> {
    unsigned_value(trimmed(text), u32::MAX as nat)
}

/// The number of a process in the text of a file.
pub fn parse_pid(text: &str) -> (r: Option<u32>)
    ensures
        match r {
            Some(n) => pid_in(text@) == Some(n as nat),
            None => pid_in(text@) is None,
        },
{
    let chars = chars_of(text);
    let t = trim(chars.as_slice());
    match parse_unsigned(t.as_slice(), u32::MAX as u64) {
        Some(n) => Some(n as u32),
        None => None,
    }
}

/// What is done to end the process of a server.
#[derive(Debug)]
pub enum Ending {
    /// No process is known.
    Unknown,
    /// The process does not run: a text is shown.
    Gone(String),
    /// A text is shown, and the process is asked to end.
    Terminate { pid: u32, notice: String },
}

fn with_pid(head: &str, pid: u32, tail: &str) -> (r: String)
    ensures
        r@ == head@ + decimal(pid as nat) + tail@,
{
    let mut out = head.to_owned();
    push_decimal(&mut out, pid as u64);
    out.append(tail);
    out
}

/// What is done to end the process of a server. `running` says whether it runs.
pub fn end_process(pid: Option<u32>, running: bool) -> (r: Ending)
    ensures
        match pid {
            None => r is Unknown,
            Some(n) => if running {
                &&& r matches Ending::Terminate { pid: p, notice }
                &&& p == n
                &&& notice@ == "Sending SIGTERM to PID "@ + decimal(n as nat) + "...\n"@
            } else {
                r matches Ending::Gone(t) && t@ == "Server process "@ + decimal(n as nat)
                    + " is not running.\n"@
            },
        },
{
    match pid {
        None => Ending::Unknown,
        Some(n) => if running {
            Ending::Terminate { pid: n, notice: with_pid("Sending SIGTERM to PID ", n, "...\n") }
        } else {
            Ending::Gone(with_pid("Server process ", n, " is not running.\n"))
        },
    }
}

/// What is shown once a process was asked to end: whether it is killed because it
/// still runs, and that it is gone.
pub fn ended_process(pid: u32, running: bool) -> (r: (Option<String>, String))
    ensures
        match r.0 {
            Some(t) => running && t@ == "Process didn't stop, sending SIGKILL...\n"@,
            None => !running,
        },
        r.1@ == "✓ Server process "@ + decimal(pid as nat) + " terminated.\n"@,
{
    let kill = if running {
        Some("Process didn't stop, sending SIGKILL...\n".to_owned())
    } else {
        None
    };
    (kill, with_pid("✓ Server process ", pid, " terminated.\n"))
}

} // verus!
