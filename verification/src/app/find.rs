//! Searching an open file and going through the results.

use vstd::prelude::*;

use crate::app;
use crate::app::{App, DocView, SearchView};
use crate::effects::{Effect, EffectView};
use crate::model::{SearchMatch, Selection};
use crate::numbers;
use crate::numbers::{decimal_text, hex_text, ordinal_text};
use crate::search;
use crate::search::{parse_query, MessageView, SearchMessage};
use crate::text;

verus! {

broadcast use crate::text::group_views;

impl DocView {
    /// With the search in another state.
    #[verifier::opaque]
    pub open spec fn with_search(self, state: SearchView) -> DocView {
        DocView { search: state, ..self }
    }

    /// With a search started for a query, or a message that says what is wrong with it. The
    /// search that ran before is stopped either way.
    #[verifier::opaque]
    pub open spec fn search_started(self, query: Seq<char>) -> DocView {
        let stopped = self.search_cancelled();
        match search::query_of(query) {
            Ok(_) => stopped.with_search(
                SearchView {
                    query,
                    results: Seq::empty(),
                    current: 0,
                    has_active_result: false,
                    running: true,
                    scanned: 0,
                    total: stopped.length(),
                    worker: true,
                },
            ).asking(EffectView::StartSearch(query)).say(
                "Searching in background; browse normally, n/N moves through matches"@,
            ),
            Err(error) => stopped.say(error),
        }
    }

    /// After a report of the search. Reports of a search that was stopped do not count.
    #[verifier::opaque]
    pub open spec fn search_reported(self, message: MessageView) -> DocView {
        let state = self.search;
        let stopped = SearchView { running: false, worker: false, ..state };
        if !state.worker {
            self
        } else {
            match message {
                MessageView::Batch(batch) => {
                    let results = state.results + batch;
                    let grown = self.with_search(SearchView { results, ..state });
                    if state.results.len() == 0 {
                        grown.say(
                            "Search running: "@ + numbers::decimal(results.len())
                                + " matches so far; press n for next"@,
                        )
                    } else {
                        grown
                    }
                },
                MessageView::Progress(scanned) => self.with_search(
                    SearchView { scanned, ..state },
                ),
                MessageView::Done => self.with_search(stopped).say(
                    if state.results.len() == 0 {
                        "Search complete: no matches"@
                    } else {
                        "Search complete: "@ + numbers::decimal(state.results.len())
                            + " matches; n/N or Ctrl+Down/Up navigates"@
                    },
                ),
                MessageView::Error(error) => self.with_search(stopped).say(
                    "Search failed: "@ + error,
                ),
            }
        }
    }

    /// After several reports of the search.
    pub open spec fn search_drained(self, messages: Seq<MessageView>) -> DocView
        decreases messages.len(),
    {
        if messages.len() == 0 {
            self
        } else {
            self.search_drained(messages.drop_last()).search_reported(messages.last())
        }
    }

    /// The result that is gone to, if there is one.
    pub open spec fn active_result(self) -> Option<SearchMatch> {
        if self.search.has_active_result && self.search.current < self.search.results.len() {
            Some(self.search.results[self.search.current])
        } else {
            None
        }
    }

    /// With the result that is gone to selected and in sight.
    #[verifier::opaque]
    pub open spec fn result_shown(self) -> DocView {
        match self.active_result() {
            Some(found) => self.selecting_also(
                Selection { anchor: found.start, cursor: found.end },
            ).showing(found.start as int).say(
                "Match "@ + numbers::decimal((self.search.current + 1) as nat) + "/"@
                    + numbers::decimal(self.search.results.len()) + " at 0x"@ + numbers::hex(
                    found.start as nat,
                ) + if self.search.running {
                    " (search still running)"@
                } else {
                    ""@
                },
            ),
            None => self,
        }
    }

    /// With the selection at the cursor replaced, and the others kept.
    #[verifier::opaque]
    pub open spec fn selecting_also(self, selection: Selection) -> DocView {
        DocView { selection: Some(selection), ..self }
    }

    /// The message for a walk through no results.
    pub open spec fn no_results(self) -> Seq<char> {
        if self.search.running {
            "Search is still running; no matches found yet"@
        } else {
            "No search results; use Ctrl+F"@
        }
    }

    /// With the next result gone to: the first one at first, and after the last.
    #[verifier::opaque]
    pub open spec fn next_result(self) -> DocView {
        let state = self.search;
        if state.results.len() == 0 {
            self.say(self.no_results())
        } else {
            self.with_search(
                SearchView {
                    current: if state.has_active_result {
                        (state.current + 1) % state.results.len() as int
                    } else {
                        0
                    },
                    has_active_result: true,
                    ..state
                },
            ).result_shown()
        }
    }

    /// With the previous result gone to: the last one at first, and before the first.
    #[verifier::opaque]
    pub open spec fn previous_result(self) -> DocView {
        let state = self.search;
        if state.results.len() == 0 {
            self.say(self.no_results())
        } else {
            self.with_search(
                SearchView {
                    current: if state.has_active_result && state.current > 0 {
                        state.current - 1
                    } else {
                        state.results.len() - 1
                    },
                    has_active_result: true,
                    ..state
                },
            ).result_shown()
        }
    }
}

/// Going to the next result and back again leads to the same result.
pub proof fn next_and_previous_result(doc: DocView)
    requires
        doc.search.has_active_result,
        0 <= doc.search.current < doc.search.results.len(),
    ensures
        doc.next_result().previous_result().active_result() == doc.active_result(),
        doc.previous_result().next_result().active_result() == doc.active_result(),
{
    let state = doc.search;
    let n = state.results.len() as int;
    lemma_next_result(doc);
    lemma_previous_result(doc);
    lemma_previous_result(doc.next_result());
    lemma_next_result(doc.previous_result());
    if state.current + 1 < n {
        vstd::arithmetic::div_mod::lemma_small_mod((state.current + 1) as nat, n as nat);
    } else {
        vstd::arithmetic::div_mod::lemma_mod_self_0(n);
    }
    if state.current == 0 {
        vstd::arithmetic::div_mod::lemma_mod_self_0(n);
    } else {
        vstd::arithmetic::div_mod::lemma_small_mod(state.current as nat, n as nat);
    }
}

proof fn lemma_next_result(doc: DocView)
    requires
        doc.search.results.len() > 0,
        doc.search.has_active_result,
    ensures
        doc.next_result().search == (SearchView {
            current: (doc.search.current + 1) % doc.search.results.len() as int,
            ..doc.search
        }),
{
    reveal(DocView::next_result);
    reveal(DocView::with_search);
    lemma_result_shown(
        doc.with_search(
            SearchView {
                current: (doc.search.current + 1) % doc.search.results.len() as int,
                has_active_result: true,
                ..doc.search
            },
        ),
    );
}

proof fn lemma_previous_result(doc: DocView)
    requires
        doc.search.results.len() > 0,
        doc.search.has_active_result,
    ensures
        doc.previous_result().search == (SearchView {
            current: if doc.search.current > 0 {
                doc.search.current - 1
            } else {
                doc.search.results.len() - 1
            },
            ..doc.search
        }),
{
    reveal(DocView::previous_result);
    reveal(DocView::with_search);
    lemma_result_shown(
        doc.with_search(
            SearchView {
                current: if doc.search.current > 0 {
                    doc.search.current - 1
                } else {
                    doc.search.results.len() - 1
                },
                has_active_result: true,
                ..doc.search
            },
        ),
    );
}

proof fn lemma_result_shown(doc: DocView)
    ensures
        doc.result_shown().search == doc.search,
{
    reveal(DocView::result_shown);
    reveal(DocView::selecting_also);
    reveal(DocView::scrolled);
    reveal(DocView::say);
}

/// Whether a match is the last one of some, or missing where there are none.
spec fn follows(previous: Option<SearchMatch>, hits: Seq<SearchMatch>) -> bool {
    match previous {
        Some(hit) => hits.len() > 0 && hits.last() == hit,
        None => hits.len() == 0,
    }
}

proof fn lemma_ordered_push(hits: Seq<SearchMatch>, hit: SearchMatch, length: int)
    requires
        search::ordered_matches(hits, length),
        hit.start <= hit.end < length,
        hits.len() > 0 ==> hits.last().start < hit.start && hits.last().end <= hit.end,
    ensures
        search::ordered_matches(hits.push(hit), length),
{
    let more = hits.push(hit);
    assert forall|i: int, j: int|
        #![trigger more[i], more[j]]
        0 <= i < j < more.len() implies more[i].start < more[j].start && more[i].end
        <= more[j].end by {
        if j == hits.len() {
            let last = hits[hits.len() - 1];
            assert(hits[i].start <= last.start && hits[i].end <= last.end);
        }
    }
}

impl App {
    /// Starts a search for a query.
    pub fn start_search(&mut self, query: String)
        requires
            old(self)@.wf(),
        ensures
            final(self)@ == old(self)@.search_started(query@),
            final(self)@.wf(),
    {
        proof {
            reveal(DocView::search_started);
        }
        self.cancel_search();
        match parse_query(&query) {
            Ok(_) => {
                self.begin_search(&query);
                self.ask(Effect::StartSearch(query));
                self.say(
                    "Searching in background; browse normally, n/N moves through matches".to_owned(),
                );
            },
            Err(error) => self.say(error),
        }
    }

    /// Sets the state of a search that was just started.
    fn begin_search(&mut self, query: &String)
        requires
            old(self)@.wf(),
        ensures
            final(self)@ == old(self)@.with_search(
                SearchView {
                    query: query@,
                    results: Seq::empty(),
                    current: 0,
                    has_active_result: false,
                    running: true,
                    scanned: 0,
                    total: old(self)@.length(),
                    worker: true,
                },
            ),
            final(self)@.wf(),
    {
        proof {
            reveal(DocView::with_search);
            reveal(app::search_ok);
        }
        self.search.query = query.clone();
        self.search.results = Vec::new();
        assert(self.search.results@ =~= Seq::<SearchMatch>::empty());
        self.search.current = 0;
        self.search.has_active_result = false;
        self.search.running = true;
        self.search.scanned = 0;
        self.search.total = self.bytes.len();
        self.search.worker = true;
    }

    /// Adds results of the search.
    fn add_results(&mut self, batch: Vec<SearchMatch>)
        requires
            old(self)@.wf(),
            search::ordered_matches(old(self)@.search.results + batch@, old(self)@.length()),
        ensures
            final(self)@ == old(self)@.with_search(
                SearchView { results: old(self)@.search.results + batch@, ..old(self)@.search },
            ),
            final(self)@.wf(),
    {
        proof {
            reveal(DocView::with_search);
            reveal(app::search_ok);
        }
        let mut batch = batch;
        self.search.results.append(&mut batch);
    }

    /// Sets how far the search has come.
    fn set_scanned(&mut self, scanned: usize)
        ensures
            final(self)@ == old(self)@.with_search(
                SearchView { scanned: scanned as int, ..old(self)@.search },
            ),
            old(self)@.wf() ==> final(self)@.wf(),
    {
        proof {
            reveal(DocView::with_search);
        }
        self.search.scanned = scanned;
    }

    /// Marks the search as ended.
    fn end_search(&mut self)
        ensures
            final(self)@ == old(self)@.with_search(
                SearchView { running: false, worker: false, ..old(self)@.search },
            ),
            old(self)@.wf() ==> final(self)@.wf(),
    {
        proof {
            reveal(DocView::with_search);
        }
        self.search.running = false;
        self.search.worker = false;
    }

    /// Takes up a report of the search.
    pub fn receive_search(&mut self, message: SearchMessage)
        requires
            old(self)@.wf(),
            old(self)@.search.worker ==> match message {
                SearchMessage::Batch(batch) => search::ordered_matches(
                    old(self)@.search.results + batch@,
                    old(self)@.length(),
                ),
                _ => true,
            },
        ensures
            final(self)@ == old(self)@.search_reported(message@),
            final(self)@.wf(),
    {
        proof {
            reveal(DocView::search_reported);
        }
        if !self.search.worker {
            return;
        }
        match message {
            SearchMessage::Batch(batch) => {
                let first = self.search.results.len() == 0;
                let ghost results = self@.search.results + batch@;
                self.add_results(batch);
                assert(self@.search.results == results) by {
                    reveal(DocView::with_search);
                }
                if first {
                    let mut text = "Search running: ".to_owned();
                    text.append(&decimal_text(self.search.results.len()));
                    text.append(" matches so far; press n for next");
                    self.say(text);
                }
            },
            SearchMessage::Progress(scanned) => self.set_scanned(scanned),
            SearchMessage::Done => {
                let count: usize = self.search.results.len();
                self.end_search();
                if count == 0 {
                    self.say("Search complete: no matches".to_owned());
                } else {
                    let mut text = "Search complete: ".to_owned();
                    text.append(&decimal_text(count));
                    text.append(" matches; n/N or Ctrl+Down/Up navigates");
                    self.say(text);
                }
            },
            SearchMessage::Error(error) => {
                self.end_search();
                let mut text = "Search failed: ".to_owned();
                text.append(&error);
                self.say(text);
            },
        }
    }

    /// Whether the matches that reports of the search hand over lie in the file, and in order
    /// behind those that were found before.
    pub fn search_reports_fit(&self, messages: &Vec<SearchMessage>) -> (fit: bool)
        requires
            self@.wf(),
        ensures
            fit == search::ordered_matches(
                self@.search.results + search::reported(text::views(messages@)),
                self@.length(),
            ),
    {
        let ghost results = self@.search.results;
        let ghost all = text::views(messages@);
        let ghost length = self@.length();
        let ghost total = results + search::reported(all);
        proof {
            reveal(app::search_ok);
        }
        let mut previous: Option<SearchMatch> = if self.search.results.len() > 0 {
            Some(self.search.results[self.search.results.len() - 1])
        } else {
            None
        };
        let mut i: usize = 0;
        proof {
            assert(all.take(0) =~= Seq::<MessageView>::empty());
            assert(results + search::reported(all.take(0)) =~= results);
        }
        while i < messages.len()
            invariant
                i <= messages.len(),
                all == text::views(messages@),
                length == self@.length(),
                length == self.bytes.len(),
                results == self@.search.results,
                total == results + search::reported(all),
                search::ordered_matches(results + search::reported(all.take(i as int)), length),
                follows(previous, results + search::reported(all.take(i as int))),
            decreases messages.len() - i,
        {
            let ghost before = results + search::reported(all.take(i as int));
            proof {
                assert(all.take(i + 1).drop_last() =~= all.take(i as int));
                assert(all.take(i + 1).last() == messages@[i as int]@);
                search::lemma_reported_prefix(all, i + 1);
            }
            match &messages[i] {
                SearchMessage::Batch(batch) => {
                    assert(before + batch@ =~= results + search::reported(all.take(i + 1)));
                    let mut k: usize = 0;
                    assert(before + batch@.take(0) =~= before);
                    while k < batch.len()
                        invariant
                            k <= batch.len(),
                            length == self.bytes.len(),
                            length == self@.length(),
                            results == self@.search.results,
                            all == text::views(messages@),
                            total == results + search::reported(all),
                            (before + batch@).is_prefix_of(total),
                            search::ordered_matches(before + batch@.take(k as int), length),
                            follows(previous, before + batch@.take(k as int)),
                        decreases batch.len() - k,
                    {
                        let hit = batch[k];
                        let ghost sofar = before + batch@.take(k as int);
                        let ghost more = before + batch@.take(k + 1);
                        assert(more =~= sofar.push(hit));
                        let behind = match previous {
                            Some(last) => last.start < hit.start && last.end <= hit.end,
                            None => true,
                        };
                        if !behind || hit.start > hit.end || hit.end >= self.bytes.len() {
                            proof {
                                let n = sofar.len() as int;
                                let part = before + batch@;
                                assert(part =~= total.subrange(0, part.len() as int));
                                assert(part[n] == hit);
                                assert(total[n] == hit);
                                if n > 0 {
                                    assert(part[n - 1] == sofar[n - 1]);
                                    assert(total[n - 1] == sofar[n - 1]);
                                }
                            }
                            return false;
                        }
                        proof {
                            lemma_ordered_push(sofar, hit, length);
                        }
                        previous = Some(hit);
                        k = k + 1;
                    }
                    assert(before + batch@.take(k as int) =~= before + batch@);
                },
                _ => {
                    assert(before =~= results + search::reported(all.take(i + 1)));
                },
            }
            i = i + 1;
        }
        assert(all.take(i as int) =~= all);
        true
    }

    /// Takes up the reports of the search that have come in, in order.
    pub fn drain_search_messages(&mut self, messages: Vec<SearchMessage>)
        requires
            old(self)@.wf(),
            old(self)@.search.worker ==> search::ordered_matches(
                old(self)@.search.results + search::reported(text::views(messages@)),
                old(self)@.length(),
            ),
        ensures
            final(self)@ == old(self)@.search_drained(text::views(messages@)),
            final(self)@.wf(),
    {
        let ghost before = self@;
        let ghost all = text::views(messages@);
        let ghost held = messages@;
        for message in it: messages
            invariant
                it.seq() == held,
                all == text::views(held),
                self@ == before.search_drained(all.take(it.index() as int)),
                self@.wf(),
                self@.length() == before.length(),
                self@.search.worker ==> before.search.worker && self@.search.results
                    == before.search.results + search::reported(all.take(it.index() as int)),
                before.search.worker ==> search::ordered_matches(
                    before.search.results + search::reported(all),
                    before.length(),
                ),
        {
            let ghost i = it.index() as int;
            proof {
                assert(all.take(i + 1).drop_last() =~= all.take(i));
                assert(all.take(i + 1).last() == message@);
                search::lemma_reported_prefix(all, i + 1);
                if self@.search.worker {
                    lemma_ordered_prefix(
                        before.search.results + search::reported(all),
                        before.search.results + search::reported(all.take(i + 1)),
                        before.length(),
                    );
                    if let MessageView::Batch(batch) = message@ {
                        assert(self@.search.results + batch =~= before.search.results
                            + search::reported(all.take(i + 1)));
                    }
                }
                lemma_search_reported(self@, message@);
            }
            self.receive_search(message);
            proof {
                if self@.search.worker {
                    assert(self@.search.results =~= before.search.results + search::reported(
                        all.take(i + 1),
                    ));
                }
            }
        }
        assert(all.take(all.len() as int) =~= all);
    }

    /// The result that is gone to.
    pub fn active_search_match(&self) -> (found: Option<&SearchMatch>)
        ensures
            match found {
                Some(hit) => self@.active_result() == Some(*hit),
                None => self@.active_result() is None,
            },
    {
        if self.search.has_active_result && self.search.current < self.search.results.len() {
            Some(&self.search.results[self.search.current])
        } else {
            None
        }
    }

    /// Whether an offset lies in a result.
    pub fn is_search_match(&self, offset: usize) -> (inside: bool)
        requires
            self@.sound(),
        ensures
            inside == exists|i: int|
                0 <= i < self@.search.results.len() && (#[trigger] self@.search.results[i]).covers(
                    offset as int,
                ),
    {
        proof {
            reveal(app::search_ok);
        }
        let ghost results = self.search.results@;
        let mut low: usize = 0;
        let mut high: usize = self.search.results.len();
        while low < high
            invariant
                low <= high <= self.search.results.len(),
                results == self.search.results@,
                search::ordered_matches(results, self@.length()),
                forall|i: int| 0 <= i < low ==> (#[trigger] results[i]).start <= offset,
                forall|i: int| high <= i < results.len() ==> (#[trigger] results[i]).start > offset,
            decreases high - low,
        {
            let middle: usize = low + (high - low) / 2;
            if self.search.results[middle].start <= offset {
                assert forall|i: int| 0 <= i < middle + 1 implies (#[trigger] results[i]).start
                    <= offset by {
                    if i < middle {
                        assert(results[i].start < results[middle as int].start);
                    }
                }
                low = middle + 1;
            } else {
                assert forall|i: int| middle <= i < results.len() implies (
                #[trigger] results[i]).start > offset by {
                    if i > middle {
                        assert(results[middle as int].start < results[i].start);
                    }
                }
                high = middle;
            }
        }
        if low == 0 {
            return false;
        }
        let inside = self.search.results[low - 1].contains(offset);
        proof {
            if inside {
                assert(results[low - 1].covers(offset as int));
            } else {
                assert forall|i: int| 0 <= i < results.len() implies !(#[trigger] results[i]).covers(
                    offset as int,
                ) by {
                    if i < low - 1 {
                        assert(results[i].end <= results[low - 1].end);
                    }
                }
            }
        }
        inside
    }

    /// Replaces the selection at the cursor and keeps the others.
    pub fn select_also(&mut self, selection: Selection)
        requires
            old(self)@.wf(),
            selection.anchor < old(self)@.length(),
            selection.cursor < old(self)@.length(),
        ensures
            final(self)@ == old(self)@.selecting_also(selection),
            final(self)@.wf(),
    {
        proof {
            reveal(DocView::selecting_also);
            reveal(app::selection_ok);
        }
        self.selection = Some(selection);
    }

    /// Selects the result that is gone to and shows it.
    fn activate_search_result(&mut self)
        requires
            old(self)@.wf(),
        ensures
            final(self)@ == old(self)@.result_shown(),
            final(self)@.wf(),
    {
        proof {
            reveal(DocView::result_shown);
            reveal(app::search_ok);
        }
        let found = match self.active_search_match() {
            Some(found) => *found,
            None => {
                return;
            },
        };
        let mut text = "Match ".to_owned();
        text.append(&ordinal_text(self.search.current));
        text.append("/");
        text.append(&decimal_text(self.search.results.len()));
        text.append(" at 0x");
        text.append(&hex_text(found.start));
        if self.search.running {
            text.append(" (search still running)");
        } else {
            text.append("");
        }
        self.select_also(Selection { anchor: found.start, cursor: found.end });
        self.ensure_visible(found.start);
        self.say(text);
    }

    /// Goes to a result.
    fn go_to_result(&mut self, current: usize)
        requires
            old(self)@.wf(),
            current < usize::MAX,
        ensures
            final(self)@ == old(self)@.with_search(
                SearchView {
                    current: current as int,
                    has_active_result: true,
                    ..old(self)@.search
                },
            ),
            final(self)@.wf(),
    {
        proof {
            reveal(DocView::with_search);
            reveal(app::search_ok);
        }
        self.search.current = current;
        self.search.has_active_result = true;
    }

    /// Says that there is no result to go to.
    fn say_no_results(&mut self)
        ensures
            final(self)@ == old(self)@.say(old(self)@.no_results()),
            old(self)@.wf() ==> final(self)@.wf(),
    {
        if self.search.running {
            self.say("Search is still running; no matches found yet".to_owned());
        } else {
            self.say("No search results; use Ctrl+F".to_owned());
        }
    }

    /// Goes to the next result.
    pub fn next_search_result(&mut self)
        requires
            old(self)@.wf(),
        ensures
            final(self)@ == old(self)@.next_result(),
            final(self)@.wf(),
    {
        proof {
            reveal(DocView::next_result);
            reveal(app::search_ok);
        }
        let count: usize = self.search.results.len();
        if count == 0 {
            self.say_no_results();
            return;
        }
        let current: usize = if self.search.has_active_result {
            (self.search.current + 1) % count
        } else {
            0
        };
        self.go_to_result(current);
        self.activate_search_result();
    }

    /// Goes to the previous result.
    pub fn previous_search_result(&mut self)
        requires
            old(self)@.wf(),
        ensures
            final(self)@ == old(self)@.previous_result(),
            final(self)@.wf(),
    {
        proof {
            reveal(DocView::previous_result);
            reveal(app::search_ok);
        }
        let count: usize = self.search.results.len();
        if count == 0 {
            self.say_no_results();
            return;
        }
        let current: usize = if self.search.has_active_result && self.search.current > 0 {
            self.search.current - 1
        } else {
            count - 1
        };
        self.go_to_result(current);
        self.activate_search_result();
    }
}

/// The first of some matches in order are in order.
proof fn lemma_ordered_prefix(hits: Seq<SearchMatch>, first: Seq<SearchMatch>, length: int)
    requires
        search::ordered_matches(hits, length),
        first.len() <= hits.len(),
        hits.take(first.len() as int) == first,
    ensures
        search::ordered_matches(first, length),
{
    assert forall|i: int| 0 <= i < first.len() implies (#[trigger] first[i]) == hits[i] by {
        assert(hits.take(first.len() as int)[i] == hits[i]);
    }
}

/// What a report of the search leaves as it is.
proof fn lemma_search_reported(doc: DocView, message: MessageView)
    ensures
        ({
            let after = doc.search_reported(message);
            &&& after.bytes == doc.bytes
            &&& after.search.worker ==> doc.search.worker && after.search.results == match message {
                MessageView::Batch(batch) => doc.search.results + batch,
                _ => doc.search.results,
            }
        }),
{
    reveal(DocView::search_reported);
    reveal(DocView::with_search);
    reveal(DocView::say);
}

} // verus!
