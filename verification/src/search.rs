//! The search: when to start one, and which of its results to show.
//!
//! A change of the query does not start a search at once. It starts a timer,
//! in place of the timer of the change before; only a timer that is left to
//! run out starts a search. Each search that starts gets the next epoch, and
//! the results of a search carry its epoch. Searches are never stopped: a
//! result of a search that is no longer the current one is told by its epoch
//! and dropped when it arrives.
//!
//! The state decides; whoever drives it keeps the timers and runs the
//! searches. It hands in what happened and gets back what to do.

use crate::engine::{hits_on_page, results_view, EngineView, PdfEngine};
use crate::ids::{decimal_text, push_decimal};
use crate::transform::{copy_rects, Rect};
use std::collections::HashMap;
use vstd::prelude::*;
use vstd::std_specs::hash::group_hash_axioms;
use vstd::string::StringExecFns;

verus! {

broadcast use group_hash_axioms;

/// How long the query must rest before a search starts, in milliseconds.
pub const SEARCH_QUIET_MILLIS: u64 = 500;

/// The hits of a search on one page.
#[derive(Debug)]
pub struct SearchResult {
    /// The page, counted from zero.
    pub page: i32,
    pub display_text: String,
    /// The epoch of the search that found the hits.
    pub req_id: usize,
    pub rects: Vec<Rect>,
}

/// The hits of a search on one page as contracts see them.
pub struct SearchResultView {
    pub page: i32,
    pub display_text: Seq<char>,
    pub req_id: usize,
    pub rects: Seq<Rect>,
}

impl View for SearchResult {
    type V = SearchResultView;

    open spec fn view(&self) -> SearchResultView {
        SearchResultView {
            page: self.page,
            display_text: self.display_text@,
            req_id: self.req_id,
            rects: self.rects@,
        }
    }
}

/// The results of a list as contracts see them.
pub open spec fn result_views(list: Seq<SearchResult>) -> Seq<SearchResultView> {
    list.map_values(|r: SearchResult| r@)
}

/// The line that tells how many hits a page has.
pub open spec fn hits_text(count: nat) -> Seq<char> {
    "Found "@ + decimal_text(count) + " matches"@
}

impl SearchResult {
    /// The result that a search sends for a page: none for a page without
    /// hits.
    pub fn for_page(page: i32, req_id: usize, rects: Vec<Rect>) -> (r: Option<SearchResult>)
        ensures
            match r {
                Some(result) => rects@.len() > 0 && result@ == (SearchResultView {
                    page,
                    display_text: hits_text(rects@.len()),
                    req_id,
                    rects: rects@,
                }),
                None => rects@.len() == 0,
            },
    {
        if rects.len() == 0 {
            return None;
        }
        let mut text = String::from_str("Found ");
        push_decimal(&mut text, rects.len() as u64);
        text.append(" matches");
        assert(text@ =~= hits_text(rects@.len()));
        Some(SearchResult { page, display_text: text, req_id, rects })
    }

    /// A copy of the result.
    pub fn duplicate(&self) -> (r: SearchResult)
        ensures
            r@ == self@,
    {
        SearchResult {
            page: self.page,
            display_text: self.display_text.clone(),
            req_id: self.req_id,
            rects: copy_rects(&self.rects),
        }
    }
}

/// What to do about the timers after the query changed.
#[derive(Clone, Copy, Debug, PartialEq, Eq, Structural)]
pub struct TimerRequest {
    /// The timer to stop, if one is running.
    pub cancel: Option<u64>,
    /// The timer to start.
    pub start: u64,
}

/// What to do after a timer ran out.
#[derive(Debug)]
pub enum Fired {
    /// The timer was not the one that is waited for: nothing.
    Stale,
    /// The query is empty: no search.
    Idle,
    /// Start a search for the query; its results carry the epoch.
    Spawn { epoch: usize, query: String },
}

/// What to do after a timer ran out, as contracts see it.
pub enum FiredView {
    Stale,
    Idle,
    Spawn { epoch: usize, query: Seq<char> },
}

impl View for Fired {
    type V = FiredView;

    open spec fn view(&self) -> FiredView {
        match *self {
            Fired::Stale => FiredView::Stale,
            Fired::Idle => FiredView::Idle,
            Fired::Spawn { epoch, query } => FiredView::Spawn { epoch, query: query@ },
        }
    }
}

/// The state of the search. Its fields are its own; `SearchView` is what
/// contracts say of it.
pub struct SearchState {
    epoch: usize,
    next_token: u64,
    pending: Option<(u64, String)>,
    results: Vec<SearchResult>,
    buffer: HashMap<i32, Vec<Rect>>,
    searching: bool,
}

/// The state of the search as contracts see it.
pub struct SearchView {
    /// The epoch of the search whose results are shown.
    pub epoch: usize,
    /// The token of the next timer.
    pub next_token: u64,
    /// The timer that is waited for, and the query that it stands for.
    pub pending: Option<(u64, Seq<char>)>,
    /// The results that are shown, in the order in which they came.
    pub results: Seq<SearchResultView>,
    /// The hits that are shown, page by page.
    pub hits: Map<i32, Seq<Rect>>,
    /// A search was started and its results are awaited.
    pub searching: bool,
}

impl SearchView {
    /// What the state keeps true of itself: all that is shown was found by
    /// the current search.
    pub open spec fn wf(self) -> bool {
        &&& forall|i: int|
            0 <= i < self.results.len() ==> (#[trigger] self.results[i]).req_id == self.epoch
        &&& forall|i: int|
            0 <= i < self.results.len() ==> self.hits.contains_key((#[trigger] self.results[i]).page)
        &&& self.pending matches Some((token, _)) ==> token < self.next_token || token == u64::MAX
    }

    /// The state after the query changed.
    pub open spec fn changed(self, query: Seq<char>) -> SearchView {
        SearchView {
            pending: Some((self.next_token, query)),
            next_token: if self.next_token < u64::MAX {
                (self.next_token + 1) as u64
            } else {
                self.next_token
            },
            ..self
        }
    }

    /// What to do about the timers when the query changes.
    pub open spec fn timer_request(self) -> TimerRequest {
        TimerRequest {
            cancel: match self.pending {
                Some((token, _)) => Some(token),
                None => None,
            },
            start: self.next_token,
        }
    }

    /// The timer is the one that is waited for, and a new epoch can be had.
    pub open spec fn awaits(self, token: u64) -> bool {
        (self.pending matches Some((waited, _)) && waited == token) && self.epoch < usize::MAX
    }

    /// What to do after a timer ran out.
    pub open spec fn outcome(self, token: u64) -> FiredView {
        if self.awaits(token) {
            let query = self.pending.unwrap().1;
            if query.len() == 0 {
                FiredView::Idle
            } else {
                FiredView::Spawn { epoch: (self.epoch + 1) as usize, query }
            }
        } else {
            FiredView::Stale
        }
    }

    /// The state after a timer ran out. The timer that is waited for opens a
    /// new epoch and clears what is shown; any other changes nothing.
    pub open spec fn fired(self, token: u64) -> SearchView {
        if self.awaits(token) {
            SearchView {
                epoch: (self.epoch + 1) as usize,
                pending: None,
                results: Seq::<SearchResultView>::empty(),
                hits: Map::<i32, Seq<Rect>>::empty(),
                searching: self.pending.unwrap().1.len() > 0,
                ..self
            }
        } else {
            self
        }
    }

    /// The state after a result arrived. A result of the current search is
    /// shown; any other changes nothing.
    pub open spec fn accepted(self, result: SearchResultView) -> SearchView {
        if result.req_id == self.epoch {
            SearchView {
                results: self.results.push(result),
                hits: self.hits.insert(result.page, result.rects),
                ..self
            }
        } else {
            self
        }
    }
}

impl SearchState {
    /// The state as contracts see it.
    pub closed spec fn view(&self) -> SearchView {
        SearchView {
            epoch: self.epoch,
            next_token: self.next_token,
            pending: match self.pending {
                Some((token, query)) => Some((token, query@)),
                None => None,
            },
            results: result_views(self.results@),
            hits: results_view(self.buffer@),
            searching: self.searching,
        }
    }

    /// A state in which nothing was searched for yet.
    pub fn new() -> (r: Self)
        ensures
            r@.wf(),
            r@ == (SearchView {
                epoch: 0,
                next_token: 0,
                pending: None,
                results: Seq::<SearchResultView>::empty(),
                hits: Map::<i32, Seq<Rect>>::empty(),
                searching: false,
            }),
    {
        let r = SearchState {
            epoch: 0,
            next_token: 0,
            pending: None,
            results: Vec::new(),
            buffer: HashMap::new(),
            searching: false,
        };
        assert(r@.hits =~= Map::<i32, Seq<Rect>>::empty());
        assert(r@.results =~= Seq::<SearchResultView>::empty());
        r
    }

    /// The query changed: the timer that is waited for, if any, is to be
    /// stopped, and a new one is to be started for the query.
    pub fn query_changed(&mut self, query: String) -> (r: TimerRequest)
        requires
            old(self)@.wf(),
        ensures
            final(self)@.wf(),
            final(self)@ == old(self)@.changed(query@),
            r == old(self)@.timer_request(),
    {
        let cancel = match &self.pending {
            Some((token, _)) => Some(*token),
            None => None,
        };
        let start = self.next_token;
        self.pending = Some((start, query));
        if self.next_token < u64::MAX {
            self.next_token = self.next_token + 1;
        }
        TimerRequest { cancel, start }
    }

    /// A timer ran out. Where it is the one that is waited for, a new epoch
    /// begins: what was shown of the search before is cleared, here and in
    /// the engine, and a search is to be started for the query unless the
    /// query is empty. Any other timer changes nothing.
    pub fn timer_fired(&mut self, engine: &mut PdfEngine, token: u64) -> (r: Fired)
        requires
            old(self)@.wf(),
            old(engine)@.wf(),
        ensures
            final(self)@.wf(),
            final(engine)@.wf(),
            final(self)@ == old(self)@.fired(token),
            r@ == old(self)@.outcome(token),
            old(self)@.awaits(token) ==> final(engine)@ == (EngineView {
                search_results: Map::<i32, Seq<Rect>>::empty(),
                highlights: Seq::<Rect>::empty(),
                ..old(engine)@
            }),
            !old(self)@.awaits(token) ==> final(engine)@ == old(engine)@,
    {
        let waited = match &self.pending {
            Some((waited, _)) => *waited == token,
            None => false,
        };
        if !waited || self.epoch == usize::MAX {
            return Fired::Stale;
        }
        let query = match self.pending.take() {
            Some((_, query)) => query,
            None => String::new(),
        };
        self.epoch = self.epoch + 1;
        self.results = Vec::new();
        self.buffer = HashMap::new();
        engine.clear_search_results();
        proof {
            assert(self@.hits =~= Map::<i32, Seq<Rect>>::empty());
            assert(self@.results =~= Seq::<SearchResultView>::empty());
        }
        if query.as_str().is_empty() {
            self.searching = false;
            Fired::Idle
        } else {
            self.searching = true;
            Fired::Spawn { epoch: self.epoch, query }
        }
    }

    /// A result arrived. A result of the current search is added to what is
    /// shown, here and in the engine. A result of any other search is
    /// dropped: nothing changes.
    pub fn accept(&mut self, engine: &mut PdfEngine, result: SearchResult) -> (r: bool)
        requires
            old(self)@.wf(),
            old(engine)@.wf(),
        ensures
            final(self)@.wf(),
            final(engine)@.wf(),
            r == (result.req_id == old(self)@.epoch),
            final(self)@ == old(self)@.accepted(result@),
            r ==> final(engine)@ == (EngineView {
                search_results: final(self)@.hits,
                highlights: hits_on_page(final(self)@.hits, old(engine)@.current_page),
                ..old(engine)@
            }),
            !r ==> final(engine)@ == old(engine)@,
    {
        if result.req_id != self.epoch {
            return false;
        }
        let ghost before = self@;
        self.buffer.insert(result.page, copy_rects(&result.rects));
        self.results.push(result);
        proof {
            assert(self@.hits =~= before.hits.insert(result.page, result.rects@));
            assert(self@.results =~= before.results.push(result@));
            assert forall|i: int| 0 <= i < self@.results.len() implies self@.hits.contains_key(
                (#[trigger] self@.results[i]).page,
            ) by {
                if i < before.results.len() {
                    assert(self@.results[i] == before.results[i]);
                }
            }
            assert forall|i: int| 0 <= i < self@.results.len() implies (
            #[trigger] self@.results[i]).req_id == self@.epoch by {
                if i < before.results.len() {
                    assert(self@.results[i] == before.results[i]);
                }
            }
        }
        engine.set_all_search_results(self.buffer.clone());
        true
    }

    /// The epoch of the search whose results are shown.
    pub fn current_epoch(&self) -> (r: usize)
        ensures
            r == self@.epoch,
    {
        self.epoch
    }

    /// The line under the search field.
    pub fn status(&self) -> (r: &'static str)
        ensures
            r@ == if self@.searching {
                "Searching..."@
            } else {
                "Ready"@
            },
    {
        if self.searching {
            "Searching..."
        } else {
            "Ready"
        }
    }

    /// How many results are shown.
    pub fn result_count(&self) -> (r: usize)
        ensures
            r == self@.results.len(),
    {
        self.results.len()
    }

    /// The result that is shown at a place of the list.
    pub fn get_result_data(&self, idx: usize) -> (r: Option<SearchResult>)
        ensures
            match r {
                Some(result) => idx < self@.results.len() && result@ == self@.results[idx as int],
                None => idx >= self@.results.len(),
            },
    {
        if idx < self.results.len() {
            let found = self.results[idx].duplicate();
            assert(self@.results[idx as int] == self.results@[idx as int]@);
            Some(found)
        } else {
            None
        }
    }
}

/// The state after the query changed several times in a row, no timer
/// running out in between.
pub open spec fn after_changes(state: SearchView, queries: Seq<Seq<char>>) -> SearchView
    decreases queries.len(),
{
    if queries.len() == 0 {
        state
    } else {
        after_changes(state, queries.drop_last()).changed(queries.last())
    }
}

/// The state after timers ran out one after the other.
pub open spec fn after_timers(state: SearchView, tokens: Seq<u64>) -> SearchView
    decreases tokens.len(),
{
    if tokens.len() == 0 {
        state
    } else {
        after_timers(state, tokens.drop_last()).fired(tokens.last())
    }
}

/// How many searches are started when timers run out one after the other.
pub open spec fn searches_started(state: SearchView, tokens: Seq<u64>) -> nat
    decreases tokens.len(),
{
    if tokens.len() == 0 {
        0
    } else {
        searches_started(state, tokens.drop_last()) + if after_timers(
            state,
            tokens.drop_last(),
        ).outcome(tokens.last()) is Spawn {
            1nat
        } else {
            0nat
        }
    }
}

/// The timer that the last of the changes starts.
pub open spec fn last_timer(state: SearchView, queries: Seq<Seq<char>>) -> u64 {
    after_changes(state, queries.drop_last()).next_token
}

/// Changes of the query leave the epoch as it is.
proof fn lemma_changes_keep_epoch(state: SearchView, queries: Seq<Seq<char>>)
    ensures
        after_changes(state, queries).epoch == state.epoch,
    decreases queries.len(),
{
    if queries.len() > 0 {
        lemma_changes_keep_epoch(state, queries.drop_last());
    }
}

/// After changes of the query in a row, the timer that is waited for is the
/// one of the last change, and it stands for the last query.
proof fn lemma_last_change_pending(state: SearchView, queries: Seq<Seq<char>>)
    requires
        queries.len() > 0,
    ensures
        after_changes(state, queries).pending == Some(
            (last_timer(state, queries), queries.last()),
        ),
        after_changes(state, queries).epoch == state.epoch,
{
    lemma_changes_keep_epoch(state, queries);
}

/// Short of the end of the counter, the timers of changes in a row are
/// numbered on from the next token, so that no two of them are the same.
pub proof fn lemma_timers_numbered(state: SearchView, queries: Seq<Seq<char>>)
    requires
        queries.len() > 0,
        state.next_token + queries.len() <= u64::MAX,
    ensures
        last_timer(state, queries) == state.next_token + queries.len() - 1,
        after_changes(state, queries).next_token == state.next_token + queries.len(),
    decreases queries.len(),
{
    if queries.len() == 1 {
        assert(queries.drop_last().len() == 0);
        assert(after_changes(state, queries.drop_last()) == state);
    } else {
        lemma_timers_numbered(state, queries.drop_last());
    }
}

/// While no timer is waited for, timers that run out start no search and
/// change nothing.
pub proof fn lemma_idle_timers(state: SearchView, tokens: Seq<u64>)
    requires
        state.pending is None,
    ensures
        after_timers(state, tokens) == state,
        searches_started(state, tokens) == 0,
    decreases tokens.len(),
{
    if tokens.len() > 0 {
        lemma_idle_timers(state, tokens.drop_last());
    }
}

/// Changes of the query in a row start one search at most: whatever timers
/// run out afterwards, and however often, exactly one search is started
/// where the timer of the last change is among them and the last query is
/// not empty, and none otherwise. With `lemma_timers_numbered`: the timers
/// of the changes before start nothing.
pub proof fn lemma_changes_coalesce(state: SearchView, queries: Seq<Seq<char>>, tokens: Seq<u64>)
    requires
        queries.len() > 0,
        state.epoch < usize::MAX,
    ensures
        searches_started(after_changes(state, queries), tokens) == if tokens.contains(
            last_timer(state, queries),
        ) && queries.last().len() > 0 {
            1nat
        } else {
            0nat
        },
    decreases tokens.len(),
{
    lemma_last_change_pending(state, queries);
    let start = after_changes(state, queries);
    let last = last_timer(state, queries);
    if tokens.len() == 0 {
    } else {
        let rest = tokens.drop_last();
        lemma_changes_coalesce(state, queries, rest);
        if rest.contains(last) {
            lemma_fired_once(start, rest, last);
            assert(after_timers(start, rest).outcome(tokens.last()) is Stale);
            let k = choose|k: int| 0 <= k < rest.len() && rest[k] == last;
            assert(tokens[k] == last);
        } else {
            lemma_not_fired(start, rest, last);
            assert(after_timers(start, rest) == start);
            if tokens.last() == last {
                assert(tokens[tokens.len() - 1] == last);
            } else {
                assert(!tokens.contains(last)) by {
                    if tokens.contains(last) {
                        let k = choose|k: int| 0 <= k < tokens.len() && tokens[k] == last;
                        if k < rest.len() {
                            assert(rest[k] == last);
                        }
                    }
                }
            }
        }
    }
}

/// Timers other than the one that is waited for change nothing.
proof fn lemma_not_fired(state: SearchView, tokens: Seq<u64>, waited: u64)
    requires
        state.pending matches Some((token, _)) && token == waited,
        !tokens.contains(waited),
    ensures
        after_timers(state, tokens) == state,
    decreases tokens.len(),
{
    if tokens.len() > 0 {
        let rest = tokens.drop_last();
        assert(!rest.contains(waited)) by {
            if rest.contains(waited) {
                let k = choose|k: int| 0 <= k < rest.len() && rest[k] == waited;
                assert(tokens[k] == waited);
            }
        }
        lemma_not_fired(state, rest, waited);
        assert(tokens[tokens.len() - 1] == tokens.last());
    }
}

/// Once the timer that is waited for ran out, no timer is waited for.
proof fn lemma_fired_once(state: SearchView, tokens: Seq<u64>, waited: u64)
    requires
        state.pending matches Some((token, _)) && token == waited,
        state.epoch < usize::MAX,
        tokens.contains(waited),
    ensures
        after_timers(state, tokens).pending is None,
    decreases tokens.len(),
{
    let rest = tokens.drop_last();
    if rest.contains(waited) {
        lemma_fired_once(state, rest, waited);
    } else {
        lemma_not_fired(state, rest, waited);
        assert(tokens.last() == waited) by {
            let k = choose|k: int| 0 <= k < tokens.len() && tokens[k] == waited;
            if k < rest.len() {
                assert(rest[k] == waited);
            }
        }
    }
}

/// The search that changes of the query in a row start is the search for the
/// last query, in the next epoch.
pub proof fn lemma_last_query_searched(state: SearchView, queries: Seq<Seq<char>>)
    requires
        queries.len() > 0,
        state.epoch < usize::MAX,
        queries.last().len() > 0,
    ensures
        after_changes(state, queries).outcome(last_timer(state, queries)) == (FiredView::Spawn {
            epoch: (state.epoch + 1) as usize,
            query: queries.last(),
        }),
{
    lemma_last_change_pending(state, queries);
}

/// Results of searches before the current one are never shown: whatever
/// arrives, and in whatever order, all that is shown afterwards was found by
/// the current search, and a result of another search changes nothing.
pub proof fn lemma_stale_results_dropped(state: SearchView, result: SearchResultView)
    requires
        state.wf(),
    ensures
        state.accepted(result).wf(),
        result.req_id != state.epoch ==> state.accepted(result) == state,
        forall|i: int|
            0 <= i < state.accepted(result).results.len() ==> (#[trigger] state.accepted(
                result,
            ).results[i]).req_id == state.epoch,
{
    if result.req_id == state.epoch {
        let after = state.accepted(result);
        assert forall|i: int| 0 <= i < after.results.len() implies after.hits.contains_key(
            (#[trigger] after.results[i]).page,
        ) && after.results[i].req_id == state.epoch by {
            if i < state.results.len() {
                assert(after.results[i] == state.results[i]);
            }
        }
    }
}

} // verus!
