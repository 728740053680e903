//! The bookkeeping of queries: every response is kept in a file of its own,
//! numbered in the order of the requests, so that a later run can read the
//! responses back instead of asking again.

use crate::text::{decimal, push_decimal};
use std::path::PathBuf;
use vstd::prelude::*;
use vstd::string::*;

verus! {

/// Where the responses of one kind of query are kept, and how many have been
/// asked for.
#[derive(Clone, Debug)]
pub struct Graphql {
    pub graphql_dir: PathBuf,
    pub counter: usize,
    pub replay: bool,
}

/// How the response to one request is to be had.
#[derive(Debug)]
pub struct Exchange {
    /// The name of the file, within the directory, that holds the response.
    pub file_name: String,
    /// Whether the response is read from that file; otherwise it is asked for
    /// and then written there.
    pub replay: bool,
}

/// The name of the file that holds the response to request number `count`.
pub open spec fn response_file(count: nat) -> Seq<char> {
    decimal(count) + ".json"@
}

impl Graphql {
    /// The bookkeeping for the directory `graphql_dir`, before any request.
    pub fn new(graphql_dir: PathBuf, replay: bool) -> (graphql: Self)
        ensures
            graphql.graphql_dir == graphql_dir,
            graphql.counter == 0,
            graphql.replay == replay,
    {
        Self { graphql_dir, replay, counter: 0 }
    }

    /// Takes the next number and says how the response to the request with
    /// that number is to be had.
    pub fn next_exchange(&mut self) -> (exchange: Exchange)
        requires
            old(self).counter < usize::MAX,
        ensures
            exchange.file_name@ == response_file(old(self).counter as nat),
            exchange.replay == old(self).replay,
            final(self).counter == old(self).counter + 1,
            final(self).replay == old(self).replay,
            final(self).graphql_dir == old(self).graphql_dir,
    {
        let count = self.counter;
        self.counter = self.counter + 1;
        let mut file_name = String::new();
        push_decimal(&mut file_name, count as u64);
        file_name.append(".json");
        Exchange { file_name, replay: self.replay }
    }
}

} // verus!
