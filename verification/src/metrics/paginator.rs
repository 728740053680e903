//! Reading a cursor-paged query to its end.
//!
//! A paged query answers with one page at a time.  Each page says whether
//! another follows and hands out the cursor with which to ask for it.  The
//! [`Paginator`] keeps what has been read so far and decides, response by
//! response, whether to ask again; whoever owns the connection makes the
//! requests.

use vstd::prelude::*;

verus! {

/// What one request for a page came back with.
pub enum PageResponse<T> {
    /// The request failed.
    Failed { reason: String },
    /// A response came, but without the data.
    MissingData,
    /// The data came, but the entity that was asked about is not in it: there
    /// is nothing to read.
    NoEntity,
    /// One page.
    Page { items: Vec<T>, has_next_page: bool, end_cursor: Option<String> },
}

/// Why a paged query could not be read to its end.
#[derive(Debug)]
pub enum FetchError {
    /// A request failed.
    ApiError { reason: String },
    /// A response lacked the data.
    MissingData,
}

/// What is to be done after a response.
#[derive(Clone, Copy, Debug, PartialEq, Eq, Structural)]
pub enum Progress {
    /// Another page follows: ask for it with the paginator's cursor.
    More,
    /// Everything has been read.
    Done,
}

/// A fetch error as a mathematical value.
pub enum Failure {
    Api(Seq<char>),
    MissingData,
}

impl View for FetchError {
    type V = Failure;

    open spec fn view(&self) -> Failure {
        match self {
            FetchError::ApiError { reason } => Failure::Api(reason@),
            FetchError::MissingData => Failure::MissingData,
        }
    }
}

/// The state of a paginator as a mathematical value.
pub struct PaginatorState<T> {
    /// The items read so far, in the order in which they came.
    pub items: Seq<T>,
    /// The cursor with which the next page is asked for.
    pub cursor: Option<Seq<char>>,
    /// Whether the end was reached, or an error.
    pub finished: bool,
}

/// The state before the first request.
pub open spec fn initial<T>() -> PaginatorState<T> {
    PaginatorState { items: Seq::empty(), cursor: None, finished: false }
}

/// The state after `response` came in.
pub open spec fn after<T>(state: PaginatorState<T>, response: PageResponse<T>) -> PaginatorState<
    T,
> {
    if state.finished {
        state
    } else {
        match response {
            PageResponse::Page { items, has_next_page, end_cursor } => PaginatorState {
                items: state.items + items@,
                cursor: if has_next_page {
                    match end_cursor {
                        Some(cursor) => Some(cursor@),
                        None => None,
                    }
                } else {
                    state.cursor
                },
                finished: !has_next_page,
            },
            _ => PaginatorState { finished: true, ..state },
        }
    }
}

/// What is to be done after `response` came in.
pub open spec fn verdict<T>(state: PaginatorState<T>, response: PageResponse<T>) -> Result<
    Progress,
    Failure,
> {
    if state.finished {
        Ok(Progress::Done)
    } else {
        match response {
            PageResponse::Failed { reason } => Err(Failure::Api(reason@)),
            PageResponse::MissingData => Err(Failure::MissingData),
            PageResponse::NoEntity => Ok(Progress::Done),
            PageResponse::Page { has_next_page, .. } => if has_next_page {
                Ok(Progress::More)
            } else {
                Ok(Progress::Done)
            },
        }
    }
}

/// The verdict of a step as a mathematical value.
pub open spec fn step_view(step: Result<Progress, FetchError>) -> Result<Progress, Failure> {
    match step {
        Ok(progress) => Ok(progress),
        Err(error) => Err(error@),
    }
}

/// Accumulates the items of a paged query.
pub struct Paginator<T> {
    items: Vec<T>,
    cursor: Option<String>,
    finished: bool,
}

impl<T> View for Paginator<T> {
    type V = PaginatorState<T>;

    closed spec fn view(&self) -> PaginatorState<T> {
        PaginatorState {
            items: self.items@,
            cursor: match self.cursor {
                Some(cursor) => Some(cursor@),
                None => None,
            },
            finished: self.finished,
        }
    }
}

impl<T> Paginator<T> {
    /// A paginator that has read nothing yet.
    pub fn new() -> (paginator: Self)
        ensures
            paginator@ == initial::<T>(),
    {
        Paginator { items: Vec::new(), cursor: None, finished: false }
    }

    /// The cursor to ask the next page with: none for the first page.
    pub fn cursor(&self) -> (cursor: Option<&String>)
        ensures
            match cursor {
                Some(c) => self@.cursor == Some(c@),
                None => self@.cursor is None,
            },
    {
        self.cursor.as_ref()
    }

    /// Whether nothing more is to be asked.
    pub fn is_finished(&self) -> (finished: bool)
        ensures
            finished == self@.finished,
    {
        self.finished
    }

    /// How many items have been read.
    pub fn len(&self) -> (len: usize)
        ensures
            len == self@.items.len(),
    {
        self.items.len()
    }

    /// Takes in the response to the request that was made with the present
    /// cursor, and says whether to ask again.
    ///
    /// A page adds its items behind those read before.  A page that has a
    /// successor moves the cursor on; any other response ends the reading: a
    /// last page or an absent entity in good order, a failed request or a
    /// response without data with an error.  Once the reading has ended,
    /// further responses change nothing.
    pub fn accept(&mut self, response: PageResponse<T>) -> (step: Result<Progress, FetchError>)
        ensures
            final(self)@ == after(old(self)@, response),
            step_view(step) == verdict(old(self)@, response),
    {
        if self.finished {
            return Ok(Progress::Done);
        }
        match response {
            PageResponse::Failed { reason } => {
                self.finished = true;
                Err(FetchError::ApiError { reason })
            },
            PageResponse::MissingData => {
                self.finished = true;
                Err(FetchError::MissingData)
            },
            PageResponse::NoEntity => {
                self.finished = true;
                Ok(Progress::Done)
            },
            PageResponse::Page { items, has_next_page, end_cursor } => {
                let mut items = items;
                self.items.append(&mut items);
                if has_next_page {
                    self.cursor = end_cursor;
                    Ok(Progress::More)
                } else {
                    self.finished = true;
                    Ok(Progress::Done)
                }
            },
        }
    }

    /// Hands out the items that were read.
    pub fn into_items(self) -> (items: Vec<T>)
        ensures
            items@ == self@.items,
    {
        self.items
    }
}


/// What is reported when the responses end while another page is due.
pub open spec fn out_of_pages() -> Seq<char> {
    "the responses end before the last page"@
}

/// What reading `responses` from position `from` on leads to, for a paginator
/// in `state`: the items that have been read when the reading ends, or the
/// error that ends it.  Responses after the end are not looked at; where they
/// run out before the end, that is an error.
pub open spec fn run<T>(state: PaginatorState<T>, responses: Seq<PageResponse<T>>, from: int) -> Result<
    Seq<T>,
    Failure,
>
    decreases responses.len() - from,
{
    if state.finished {
        Ok(state.items)
    } else if from >= responses.len() {
        Err(Failure::Api(out_of_pages()))
    } else {
        match verdict(state, responses[from]) {
            Err(failure) => Err(failure),
            Ok(_) => run(after(state, responses[from]), responses, from + 1),
        }
    }
}

/// What reading `responses` from the first on leads to.
pub open spec fn fetched<T>(responses: Seq<PageResponse<T>>) -> Result<Seq<T>, Failure> {
    run(initial(), responses, 0)
}

/// The result of reading as a mathematical value.
pub open spec fn fetch_view<T>(result: Result<Vec<T>, FetchError>) -> Result<Seq<T>, Failure> {
    match result {
        Ok(items) => Ok(items@),
        Err(error) => Err(error@),
    }
}

/// Reads a paged query to its end from the responses to its requests, given
/// in the order in which the requests were made.
pub fn fetch_all<T>(responses: Vec<PageResponse<T>>) -> (result: Result<Vec<T>, FetchError>)
    ensures
        fetch_view(result) == fetched(responses@),
{
    let ghost all = responses@;
    let mut paginator: Paginator<T> = Paginator::new();
    for response in it: responses
        invariant
            it.seq() == all,
            !paginator@.finished,
            fetched(all) == run(paginator@, all, it.index() as int),
    {
        match paginator.accept(response) {
            Err(error) => {
                return Err(error);
            },
            Ok(Progress::Done) => {
                return Ok(paginator.into_items());
            },
            Ok(Progress::More) => {},
        }
    }
    Err(FetchError::ApiError { reason: "the responses end before the last page".to_owned() })
}

/// Whether the responses are the pages of one query that was read to its
/// end: every one a page, the last one without a successor and the others
/// with one.
pub open spec fn is_full_run<T>(responses: Seq<PageResponse<T>>) -> bool {
    &&& responses.len() > 0
    &&& forall|i: int|
        0 <= i < responses.len() ==> (#[trigger] responses[i] matches PageResponse::Page {
            has_next_page,
            ..
        } && has_next_page == (i < responses.len() - 1))
}

/// The items of the first `upto` pages, one page after another.
pub open spec fn page_items<T>(responses: Seq<PageResponse<T>>, upto: int) -> Seq<T>
    decreases upto,
{
    if upto <= 0 {
        Seq::empty()
    } else {
        page_items(responses, upto - 1) + match responses[upto - 1] {
            PageResponse::Page { items, .. } => items@,
            _ => Seq::empty(),
        }
    }
}

proof fn lemma_full_run_from<T>(state: PaginatorState<T>, responses: Seq<PageResponse<T>>, from: int)
    requires
        is_full_run(responses),
        0 <= from < responses.len(),
        !state.finished,
        state.items == page_items(responses, from),
    ensures
        run(state, responses, from) == Ok::<Seq<T>, Failure>(
            page_items(responses, responses.len() as int),
        ),
    decreases responses.len() - from,
{
    let next = after(state, responses[from]);
    assert(responses[from] is Page);
    if from < responses.len() - 1 {
        lemma_full_run_from(next, responses, from + 1);
    } else {
        assert(next.finished);
    }
}

/// Reading the pages of a query to its end gives the items of all pages:
/// page after page, and within a page in the order of the page.
pub proof fn lemma_fetch_all_concatenates<T>(responses: Seq<PageResponse<T>>)
    requires
        is_full_run(responses),
    ensures
        fetched(responses) == Ok::<Seq<T>, Failure>(page_items(responses, responses.len() as int)),
{
    lemma_full_run_from(initial(), responses, 0);
}

/// The nodes that are there: an absent list holds none, and absent edges and
/// edges without a node are passed over.
pub open spec fn present_nodes<T>(edges: Seq<Option<Option<T>>>) -> Seq<T>
    decreases edges.len(),
{
    if edges.len() == 0 {
        Seq::empty()
    } else {
        match edges.last() {
            Some(Some(node)) => present_nodes(edges.drop_last()).push(node),
            _ => present_nodes(edges.drop_last()),
        }
    }
}

/// Picks the nodes out of the edges of a page.  Each edge may be absent, and
/// so may its node, and so may the whole list.
pub fn present<T>(edges: Option<Vec<Option<Option<T>>>>) -> (nodes: Vec<T>)
    ensures
        nodes@ == match edges {
            Some(list) => present_nodes(list@),
            None => Seq::empty(),
        },
{
    let mut nodes: Vec<T> = Vec::new();
    match edges {
        None => {},
        Some(list) => {
            let ghost all = list@;
            assert(all.take(0) =~= Seq::empty());
            for edge in it: list
                invariant
                    it.seq() == all,
                    nodes@ == present_nodes(all.take(it.index() as int)),
            {
                proof {
                    let k = it.index() as int;
                    assert(all.take(k + 1).drop_last() == all.take(k));
                    assert(all.take(k + 1).last() == edge);
                }
                match edge {
                    Some(Some(node)) => {
                        nodes.push(node);
                    },
                    _ => {},
                }
            }
            assert(all.take(all.len() as int) == all);
        },
    }
    nodes
}

} // verus!
