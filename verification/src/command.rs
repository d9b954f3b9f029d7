//! The application loop's decisions: a line of local input becomes a
//! publish or a query command, and each merged event becomes the action
//! the loop performs next. The loop itself — waiting on whichever
//! source is ready first — lives outside, in the unverified shell.

use vstd::prelude::*;
use vstd::string::StringExecFns;

use crate::codec::{add_news_json, encode_add_news, p_i64, p_lit, sp_int, sp_lit};
use crate::news::{
    AddNews, AddNewsView, EventType, News, NewsMode, NewsModeView, NewsResponseView, NewsView,
};
use crate::text::{chars_to_string, string_to_chars};

verus! {

/// One parsed line of operator input.
#[derive(Debug)]
pub enum Command {
    Publish { title: String, author: String, description: String, date: i64 },
    Query(NewsMode),
    Unknown,
}

/// The mathematical value of a [`Command`].
pub ghost enum CommandView {
    Publish { title: Seq<char>, author: Seq<char>, description: Seq<char>, date: int },
    Query(NewsModeView),
    Unknown,
}

impl View for Command {
    type V = CommandView;

    open spec fn view(&self) -> CommandView {
        match self {
            Command::Publish { title, author, description, date } => CommandView::Publish {
                title: title@,
                author: author@,
                description: description@,
                date: *date as int,
            },
            Command::Query(m) => CommandView::Query(m@),
            Command::Unknown => CommandView::Unknown,
        }
    }
}

/// The first position at or after `i` holding `c`, or the end.
pub open spec fn find_char(t: Seq<char>, i: int, c: char) -> int
    decreases t.len() - i,
{
    if 0 <= i && i < t.len() {
        if t[i] == c {
            i
        } else {
            find_char(t, i + 1, c)
        }
    } else {
        t.len() as int
    }
}

/// The line after a recognized command word.
pub open spec fn rest_after(t: Seq<char>, p: Seq<char>) -> Seq<char> {
    t.subrange(p.len() as int, t.len() as int)
}

/// What a line of input means: a whole-line `all`, a `by-title`,
/// `by-id` or `by-author` query carrying the rest of the line, or a
/// `publish` whose arguments are four fields separated by `|`, the last
/// a decimal timestamp. Anything else is unknown.
pub open spec fn sp_command(t: Seq<char>) -> CommandView {
    if sp_lit(t, 0, "all"@) == Some(t.len() as int) {
        CommandView::Query(NewsModeView::ALL)
    } else if sp_lit(t, 0, "by-title "@) is Some {
        CommandView::Query(NewsModeView::ByTitle(rest_after(t, "by-title "@)))
    } else if sp_lit(t, 0, "by-id "@) is Some {
        CommandView::Query(NewsModeView::ById(rest_after(t, "by-id "@)))
    } else if sp_lit(t, 0, "by-author "@) is Some {
        CommandView::Query(NewsModeView::ByAuthor(rest_after(t, "by-author "@)))
    } else if sp_lit(t, 0, "publish "@) is Some {
        sp_publish(rest_after(t, "publish "@))
    } else {
        CommandView::Unknown
    }
}

/// The arguments of a publish command: `title|author|description|date`.
pub open spec fn sp_publish(r: Seq<char>) -> CommandView {
    let p1 = find_char(r, 0, '|');
    let p2 = find_char(r, p1 + 1, '|');
    let p3 = find_char(r, p2 + 1, '|');
    if p1 < r.len() && p2 < r.len() && p3 < r.len() {
        match sp_int(r, p3 + 1) {
            Some((v, e)) => if e == r.len() {
                CommandView::Publish {
                    title: r.subrange(0, p1),
                    author: r.subrange(p1 + 1, p2),
                    description: r.subrange(p2 + 1, p3),
                    date: v,
                }
            } else {
                CommandView::Unknown
            },
            None => CommandView::Unknown,
        }
    } else {
        CommandView::Unknown
    }
}

#[verifier::loop_isolation(false)]
fn find_pipe(t: &Vec<char>, i: usize) -> (r: usize)
    requires
        i <= t@.len(),
    ensures
        r == find_char(t@, i as int, '|'),
        i <= r <= t@.len(),
{
    proof {
        lemma_find_char_bounds(t@, i as int, '|');
    }
    let mut j = i;
    while j < t.len() && t[j] != '|'
        invariant
            i <= j <= t@.len(),
            find_char(t@, i as int, '|') == find_char(t@, j as int, '|'),
        decreases t@.len() - j,
    {
        j = j + 1;
    }
    j
}

/// A search never moves backwards and stays within the text.
proof fn lemma_find_char_bounds(t: Seq<char>, i: int, c: char)
    requires
        0 <= i <= t.len(),
    ensures
        i <= find_char(t, i, c) <= t.len(),
    decreases t.len() - i,
{
    if i < t.len() && t[i] != c {
        lemma_find_char_bounds(t, i + 1, c);
    }
}

fn slice_chars(t: &Vec<char>, a: usize, b: usize) -> (r: Vec<char>)
    requires
        a <= b <= t@.len(),
    ensures
        r@ == t@.subrange(a as int, b as int),
{
    let mut r: Vec<char> = Vec::new();
    let mut i = a;
    while i < b
        invariant
            a <= i <= b <= t@.len(),
            r@ == t@.subrange(a as int, i as int),
        decreases b - i,
    {
        r.push(t[i]);
        proof {
            assert(t@.subrange(a as int, i + 1) =~= t@.subrange(a as int, i as int).push(
                t@[i as int],
            ));
        }
        i = i + 1;
    }
    r
}

fn parse_publish(r: &Vec<char>) -> (c: Command)
    ensures
        c@ == sp_publish(r@),
{
    let p1 = find_pipe(r, 0);
    if p1 >= r.len() {
        return Command::Unknown;
    }
    let p2 = find_pipe(r, p1 + 1);
    if p2 >= r.len() {
        return Command::Unknown;
    }
    let p3 = find_pipe(r, p2 + 1);
    if p3 >= r.len() {
        return Command::Unknown;
    }
    match p_i64(r, p3 + 1) {
        Some((v, e)) => {
            if e != r.len() {
                return Command::Unknown;
            }
            let title = chars_to_string(&slice_chars(r, 0, p1));
            let author = chars_to_string(&slice_chars(r, p1 + 1, p2));
            let description = chars_to_string(&slice_chars(r, p2 + 1, p3));
            Command::Publish { title, author, description, date: v }
        },
        None => Command::Unknown,
    }
}

/// Reads one line of operator input as a command.
pub fn parse_command(line: &str) -> (c: Command)
    ensures
        c@ == sp_command(line@),
{
    let t = string_to_chars(line);
    if let Some(j) = p_lit(&t, 0, "all") {
        if j == t.len() {
            return Command::Query(NewsMode::ALL);
        }
    }
    if let Some(j) = p_lit(&t, 0, "by-title ") {
        let rest = slice_chars(&t, j, t.len());
        return Command::Query(NewsMode::ByTitle(chars_to_string(&rest)));
    }
    if let Some(j) = p_lit(&t, 0, "by-id ") {
        let rest = slice_chars(&t, j, t.len());
        return Command::Query(NewsMode::ById(chars_to_string(&rest)));
    }
    if let Some(j) = p_lit(&t, 0, "by-author ") {
        let rest = slice_chars(&t, j, t.len());
        return Command::Query(NewsMode::ByAuthor(chars_to_string(&rest)));
    }
    if let Some(j) = p_lit(&t, 0, "publish ") {
        let rest = slice_chars(&t, j, t.len());
        return parse_publish(&rest);
    }
    Command::Unknown
}

/// What the loop does after one event.
#[derive(Debug)]
pub enum AppAction {
    PublishGossip { topic: String, payload: String },
    RunQuery { mode: NewsMode },
    ShowResponse { response: crate::news::NewsResponse },
    Nothing,
}

/// The mathematical value of an [`AppAction`].
pub ghost enum AppActionView {
    PublishGossip { topic: Seq<char>, payload: Seq<char> },
    RunQuery { mode: NewsModeView },
    ShowResponse { response: NewsResponseView },
    Nothing,
}

impl View for AppAction {
    type V = AppActionView;

    open spec fn view(&self) -> AppActionView {
        match self {
            AppAction::PublishGossip { topic, payload } => AppActionView::PublishGossip {
                topic: topic@,
                payload: payload@,
            },
            AppAction::RunQuery { mode } => AppActionView::RunQuery { mode: mode@ },
            AppAction::ShowResponse { response } => AppActionView::ShowResponse {
                response: response@,
            },
            AppAction::Nothing => AppActionView::Nothing,
        }
    }
}

/// What one line of input leads to: a publish command becomes a signed
/// gossip payload on the `news` topic, naming the local peer as
/// requester and leaving the article id for the storing peers to
/// assign; a query command runs the query; anything else does nothing.
pub open spec fn input_action(peer: Seq<char>, line: Seq<char>) -> AppActionView {
    match sp_command(line) {
        CommandView::Publish { title, author, description, date } => AppActionView::PublishGossip {
            topic: "news"@,
            payload: add_news_json(
                AddNewsView {
                    news: NewsView { id: Seq::empty(), title, author, description, date },
                    requester_peer_id: peer,
                },
            ),
        },
        CommandView::Query(m) => AppActionView::RunQuery { mode: m },
        CommandView::Unknown => AppActionView::Nothing,
    }
}

/// Turns one merged event of the application loop into the action the
/// loop performs: input lines are parsed and dispatched, completed
/// responses are handed on for display.
pub fn handle_app_event(local_peer_id: &String, ev: EventType) -> (a: AppAction)
    ensures
        (match ev {
            EventType::Input(line) => a@ == input_action(local_peer_id@, line@),
            EventType::Response(r) => a@ == (AppActionView::ShowResponse { response: r@ }),
        }),
{
    match ev {
        EventType::Input(line) => {
            match parse_command(line.as_str()) {
                Command::Publish { title, author, description, date } => {
                    let req = AddNews {
                        news: News { id: String::new(), title, author, description, date },
                        requester_peer_id: local_peer_id.clone(),
                    };
                    let payload = encode_add_news(&req);
                    AppAction::PublishGossip { topic: String::from_str("news"), payload }
                },
                Command::Query(mode) => AppAction::RunQuery { mode },
                Command::Unknown => AppAction::Nothing,
            }
        },
        EventType::Response(response) => AppAction::ShowResponse { response },
    }
}

} // verus!
