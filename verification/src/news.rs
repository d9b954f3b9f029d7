//! The data model of the bulletin: articles, query modes, the wire
//! requests and responses, and the events the application loop merges.

use vstd::prelude::*;

verus! {

/// One article. Its identity is the `id` field, assigned by the peer
/// that persists it into the distributed store.
#[derive(Debug)]
pub struct News {
    pub id: String,
    pub title: String,
    pub author: String,
    pub description: String,
    pub date: i64,
}

/// The mathematical value of a [`News`]: its fields as sequences of
/// characters and an unbounded integer date.
pub ghost struct NewsView {
    pub id: Seq<char>,
    pub title: Seq<char>,
    pub author: Seq<char>,
    pub description: Seq<char>,
    pub date: int,
}

impl View for News {
    type V = NewsView;

    open spec fn view(&self) -> NewsView {
        NewsView {
            id: self.id@,
            title: self.title@,
            author: self.author@,
            description: self.description@,
            date: self.date as int,
        }
    }
}

impl Clone for News {
    fn clone(&self) -> (r: Self)
        ensures
            r@ == self@,
    {
        News {
            id: self.id.clone(),
            title: self.title.clone(),
            author: self.author.clone(),
            description: self.description.clone(),
            date: self.date,
        }
    }
}

/// The predicate a query applies when selecting articles.
#[derive(Debug)]
pub enum NewsMode {
    ALL,
    ByTitle(String),
    ById(String),
    ByAuthor(String),
}

/// The mathematical value of a [`NewsMode`].
pub ghost enum NewsModeView {
    ALL,
    ByTitle(Seq<char>),
    ById(Seq<char>),
    ByAuthor(Seq<char>),
}

impl View for NewsMode {
    type V = NewsModeView;

    open spec fn view(&self) -> NewsModeView {
        match self {
            NewsMode::ALL => NewsModeView::ALL,
            NewsMode::ByTitle(t) => NewsModeView::ByTitle(t@),
            NewsMode::ById(i) => NewsModeView::ById(i@),
            NewsMode::ByAuthor(a) => NewsModeView::ByAuthor(a@),
        }
    }
}

impl Clone for NewsMode {
    fn clone(&self) -> (r: Self)
        ensures
            r@ == self@,
    {
        match self {
            NewsMode::ALL => NewsMode::ALL,
            NewsMode::ByTitle(t) => NewsMode::ByTitle(t.clone()),
            NewsMode::ById(i) => NewsMode::ById(i.clone()),
            NewsMode::ByAuthor(a) => NewsMode::ByAuthor(a.clone()),
        }
    }
}

/// Does the article `n` satisfy the query mode `m`? Field comparison is
/// exact and case sensitive.
pub open spec fn mode_matches(m: NewsModeView, n: NewsView) -> bool {
    match m {
        NewsModeView::ALL => true,
        NewsModeView::ByTitle(t) => n.title == t,
        NewsModeView::ById(i) => n.id == i,
        NewsModeView::ByAuthor(a) => n.author == a,
    }
}

/// A publish request as it travels over the gossip topic: the article
/// and the peer id of the requester, who becomes the record's publisher.
#[derive(Debug)]
pub struct AddNews {
    pub news: News,
    pub requester_peer_id: String,
}

/// The mathematical value of an [`AddNews`].
pub ghost struct AddNewsView {
    pub news: NewsView,
    pub requester_peer_id: Seq<char>,
}

impl View for AddNews {
    type V = AddNewsView;

    open spec fn view(&self) -> AddNewsView {
        AddNewsView { news: self.news@, requester_peer_id: self.requester_peer_id@ }
    }
}

impl Clone for AddNews {
    fn clone(&self) -> (r: Self)
        ensures
            r@ == self@,
    {
        AddNews { news: self.news.clone(), requester_peer_id: self.requester_peer_id.clone() }
    }
}

/// A peer's answer to a query: the mode it evaluated, who answers, who
/// asked, and the matching articles in store order.
#[derive(Debug)]
pub struct NewsResponse {
    pub mode: NewsMode,
    pub responser_peer_id: String,
    pub requester_peer_id: String,
    pub data: Vec<News>,
}

/// The mathematical value of a [`NewsResponse`].
pub ghost struct NewsResponseView {
    pub mode: NewsModeView,
    pub responser_peer_id: Seq<char>,
    pub requester_peer_id: Seq<char>,
    pub data: Seq<NewsView>,
}

impl View for NewsResponse {
    type V = NewsResponseView;

    open spec fn view(&self) -> NewsResponseView {
        NewsResponseView {
            mode: self.mode@,
            responser_peer_id: self.responser_peer_id@,
            requester_peer_id: self.requester_peer_id@,
            data: Seq::new(self.data@.len(), |i: int| self.data@[i]@),
        }
    }
}

/// One event of the application loop: either a completed query response
/// or a line of local input.
pub enum EventType {
    Response(NewsResponse),
    Input(String),
}

} // verus!
