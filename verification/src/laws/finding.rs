//! What a search finds, and how its matches are walked through.

use vstd::prelude::*;

use crate::app;
use crate::app::{DocView, SearchView};
use crate::effects::EffectView;
use crate::input::{KeyCode, KeyEvent};
use crate::laws::selecting::{at_rest, unmodified};
use crate::model::{SearchMatch, Selection};
use crate::numbers;
use crate::search;
use crate::search::{MessageView, PatternView};

verus! {

/// A search for bytes finds exactly the places at which these bytes stand.
pub proof fn bytes_are_found_where_they_stand(bytes: Seq<u8>, wanted: Seq<u8>, start: int)
    requires
        wanted.len() > 0,
        bytes.len() <= usize::MAX,
        0 <= start,
        start + wanted.len() <= bytes.len(),
    ensures
        search::matches_of(bytes, PatternView::Masked(search::exactly(wanted))).contains(
            SearchMatch { start: start as usize, end: (start + wanted.len() - 1) as usize },
        ) <==> bytes.subrange(start, start + wanted.len()) == wanted,
{
    let pattern = search::exactly(wanted);
    let hit = SearchMatch { start: start as usize, end: (start + wanted.len() - 1) as usize };
    search::masked_search_is_exact(bytes, pattern, hit);
    let part = bytes.subrange(start, start + wanted.len());
    if search::fits(bytes, pattern, start) {
        assert forall|i: int| 0 <= i < wanted.len() implies part[i] == wanted[i] by {
            assert(pattern[i] == Some(wanted[i]));
        }
        assert(part =~= wanted);
    }
    if part == wanted {
        assert forall|i: int| 0 <= i < pattern.len() implies #[trigger] pattern[i] is None
            || pattern[i] == Some(bytes[start + i]) by {
            assert(part[i] == bytes[start + i]);
        }
    }
}

/// A match of a search with wild bytes is as long as what was asked for, holds the bytes that
/// were asked for where one was, and every place that does is found; matches come in the order
/// of the file, each once.
pub proof fn matches_hold_what_was_asked_for(
    bytes: Seq<u8>,
    pattern: Seq<Option<u8>>,
    hit: SearchMatch,
)
    requires
        pattern.len() > 0,
        bytes.len() <= usize::MAX,
    ensures
        search::matches_of(bytes, PatternView::Masked(pattern)).contains(hit) <==> {
            &&& hit.end - hit.start + 1 == pattern.len()
            &&& hit.end < bytes.len()
            &&& forall|i: int|
                0 <= i < pattern.len() && (#[trigger] pattern[i]) is Some ==> pattern[i]->Some_0
                    == bytes[hit.start + i]
        },
        ({
            let found = search::matches_of(bytes, PatternView::Masked(pattern));
            forall|i: int, j: int|
                #![trigger found[i], found[j]]
                0 <= i < j < found.len() ==> found[i].start < found[j].start
        }),
{
    search::masked_search_is_exact(bytes, pattern, hit);
    if hit.end - hit.start + 1 == pattern.len() && hit.end < bytes.len() {
        if search::fits(bytes, pattern, hit.start as int) {
            assert forall|i: int|
                0 <= i < pattern.len() && (#[trigger] pattern[i]) is Some implies pattern[i]->Some_0
                == bytes[hit.start + i] by {}
        } else {
            let i = choose|i: int|
                0 <= i < pattern.len() && !(#[trigger] pattern[i] is None || pattern[i] == Some(
                    bytes[hit.start + i],
                ));
            assert(pattern[i] is Some && pattern[i]->Some_0 != bytes[hit.start + i]);
        }
    }
}

/// A match of a regular expression is a span that is not empty, and every such span is one.
pub proof fn spans_become_matches(bytes: Seq<u8>, regex: Seq<char>, hit: SearchMatch)
    ensures
        search::matches_of(bytes, PatternView::Regex(regex)).contains(hit) <==> exists|k: int|
            0 <= k < search::regex_spans(regex, bytes).len() && {
                let span = #[trigger] search::regex_spans(regex, bytes)[k];
                span.0 == hit.start && span.1 == hit.end + 1
            } && hit.start <= hit.end,
{
    let spans = search::regex_spans(regex, bytes);
    lemma_spans(spans, spans.len() as int, hit);
}

proof fn lemma_spans(spans: Seq<(usize, usize)>, end: int, hit: SearchMatch)
    requires
        0 <= end <= spans.len(),
    ensures
        search::span_matches(spans, end).contains(hit) <==> exists|k: int|
            0 <= k < end && (#[trigger] spans[k]).0 == hit.start && spans[k].1 == hit.end + 1
                && hit.start <= hit.end,
    decreases end,
{
    let all = search::span_matches(spans, end);
    if end > 0 {
        lemma_spans(spans, end - 1, hit);
        let rest = search::span_matches(spans, end - 1);
        let span = spans[end - 1];
        if all.contains(hit) {
            let k = choose|k: int| 0 <= k < all.len() && all[k] == hit;
            if k < rest.len() {
                assert(rest[k] == hit);
            } else {
                assert(spans[end - 1].0 == hit.start && spans[end - 1].1 == hit.end + 1);
            }
        }
        if rest.contains(hit) {
            let k = choose|k: int| 0 <= k < rest.len() && rest[k] == hit;
            assert(all[k] == hit);
        }
        if span.0 == hit.start && span.1 == hit.end + 1 && hit.start <= hit.end {
            assert(all[all.len() - 1] == hit);
        }
    }
}

/// Whether some reports leave the search running.
spec fn goes_on(reports: Seq<MessageView>) -> bool {
    forall|i: int| 0 <= i < reports.len() ==> !(#[trigger] reports[i] is Done) && !(reports[i] is Error)
}

/// Whether reports end with the one that the search is done, and with that one only.
pub open spec fn ends_once(reports: Seq<MessageView>) -> bool {
    &&& reports.len() > 0
    &&& reports.last() is Done
    &&& forall|i: int|
        0 <= i < reports.len() - 1 ==> !(#[trigger] reports[i] is Done) && !(reports[i] is Error)
}

proof fn lemma_ends_once(first: Seq<MessageView>, rest: Seq<MessageView>)
    requires
        goes_on(first),
        ends_once(rest),
    ensures
        ends_once(first + rest),
{
    let all = first + rest;
    assert(all.last() == rest.last());
    assert forall|i: int| 0 <= i < all.len() - 1 implies !(#[trigger] all[i] is Done) && !(
    all[i] is Error) by {
        if i < first.len() {
            assert(all[i] == first[i]);
        } else {
            assert(all[i] == rest[i - first.len()]);
        }
    }
}

proof fn lemma_closing(batch: Seq<SearchMatch>, scanned: int)
    ensures
        ends_once(search::closing(batch, scanned)),
        goes_on(search::handed_over(batch)),
        goes_on(search::filled(batch)),
        goes_on(search::handed_over(batch).push(MessageView::Progress(scanned))),
{
}

proof fn lemma_masked_ends(
    bytes: Seq<u8>,
    pattern: Seq<Option<u8>>,
    start: int,
    batch: Seq<SearchMatch>,
)
    ensures
        ends_once(search::masked_stream(bytes, pattern, start, batch)),
    decreases search::places(bytes, pattern) - start,
{
    let places = search::places(bytes, pattern);
    if places == 0 {
    } else if start >= places {
        lemma_closing(batch, bytes.len() as int);
    } else {
        let after = search::place_batch(bytes, pattern, start, batch);
        lemma_masked_ends(bytes, pattern, start + 1, after);
        let reports = search::place_reports(bytes, pattern, start, batch);
        lemma_closing(search::batch_with(bytes, pattern, start, batch), start);
        lemma_closing(search::place_kept(bytes, pattern, start, batch), start);
        lemma_ends_once(reports, search::masked_stream(bytes, pattern, start + 1, after));
    }
}

proof fn lemma_regex_ends(
    hits: Seq<SearchMatch>,
    next: int,
    last_progress: int,
    batch: Seq<SearchMatch>,
    length: int,
)
    ensures
        ends_once(search::regex_stream(hits, next, last_progress, batch, length)),
    decreases hits.len() - next,
{
    if next >= hits.len() {
        lemma_closing(batch, length);
    } else {
        let progress = search::found_progress(hits[next], last_progress);
        let after = search::found_batch(hits[next], last_progress, batch);
        lemma_regex_ends(hits, next + 1, progress, after, length);
        let grown = batch.push(hits[next]);
        lemma_closing(grown, hits[next].end + 1);
        lemma_closing(search::unfilled(grown), hits[next].end + 1);
        lemma_ends_once(
            search::found_reports(hits[next], last_progress, batch),
            search::regex_stream(hits, next + 1, progress, after, length),
        );
    }
}

/// A search that is not stopped ends, once, and its last report says so.
pub proof fn searches_end_once(bytes: Seq<u8>, pattern: PatternView)
    ensures
        ends_once(search::stream_of(bytes, pattern)),
{
    match pattern {
        PatternView::Masked(mask) => lemma_masked_ends(bytes, mask, 0, Seq::empty()),
        PatternView::Regex(_) => lemma_regex_ends(
            search::matches_of(bytes, pattern),
            0,
            0,
            Seq::empty(),
            bytes.len() as int,
        ),
    }
}

proof fn lemma_drained(doc: DocView, reports: Seq<MessageView>)
    requires
        doc.search.worker,
        goes_on(reports),
    ensures
        ({
            let after = doc.search_drained(reports);
            &&& after.search.worker
            &&& after.search.running == doc.search.running
            &&& after.search.query == doc.search.query
            &&& after.search.current == doc.search.current
            &&& after.search.has_active_result == doc.search.has_active_result
            &&& after.search.total == doc.search.total
            &&& after.search.results == doc.search.results + search::reported(reports)
            &&& after == DocView { search: after.search, status: after.status, ..doc }
        }),
    decreases reports.len(),
{
    if reports.len() == 0 {
        assert(doc.search.results + search::reported(reports) =~= doc.search.results);
    } else {
        let rest = reports.drop_last();
        assert forall|i: int| 0 <= i < rest.len() implies !(#[trigger] rest[i] is Done) && !(
        rest[i] is Error) by {
            assert(rest[i] == reports[i]);
        }
        lemma_drained(doc, rest);
        assert(!(reports[reports.len() - 1] is Done) && !(reports[reports.len() - 1] is Error));
        reveal(DocView::search_reported);
        reveal(DocView::with_search);
        reveal(DocView::say);
        assert(doc.search.results + search::reported(reports) =~= match reports.last() {
            MessageView::Batch(batch) => doc.search.results + search::reported(rest) + batch,
            _ => doc.search.results + search::reported(rest),
        });
    }
}

/// Once all reports of a search are taken up, its results are the matches, all of them and in
/// order, it runs no longer, and nothing else has changed but the message.
pub proof fn a_finished_search_holds_all_matches(doc: DocView, pattern: PatternView)
    requires
        doc.search.worker,
        doc.search.results.len() == 0,
    ensures
        ({
            let after = doc.search_drained(search::stream_of(doc.bytes, pattern));
            &&& after.search.results == search::matches_of(doc.bytes, pattern)
            &&& !after.search.running
            &&& !after.search.worker
            &&& after.search.query == doc.search.query
            &&& after.search.current == doc.search.current
            &&& after.search.has_active_result == doc.search.has_active_result
            &&& search::matches_of(doc.bytes, pattern).len() == 0 ==> after.status
                == "Search complete: no matches"@
            &&& search::matches_of(doc.bytes, pattern).len() > 0 ==> after.status
                == "Search complete: "@ + numbers::decimal(
                search::matches_of(doc.bytes, pattern).len(),
            ) + " matches; n/N or Ctrl+Down/Up navigates"@
            &&& after == DocView { search: after.search, status: after.status, ..doc }
        }),
{
    let stream = search::stream_of(doc.bytes, pattern);
    searches_end_once(doc.bytes, pattern);
    search::batches_hold_the_matches(doc.bytes, pattern);
    let rest = stream.drop_last();
    assert forall|i: int| 0 <= i < rest.len() implies !(#[trigger] rest[i] is Done) && !(
    rest[i] is Error) by {
        assert(rest[i] == stream[i]);
    }
    lemma_drained(doc, rest);
    assert(doc.search.results + search::reported(rest) =~= search::reported(rest));
    reveal(DocView::search_reported);
    reveal(DocView::with_search);
    reveal(DocView::say);
}

/// Reports of a search that was stopped change nothing.
pub proof fn reports_of_a_stopped_search_do_nothing(doc: DocView, reports: Seq<MessageView>)
    requires
        !doc.search.worker,
    ensures
        doc.search_drained(reports) == doc,
    decreases reports.len(),
{
    if reports.len() > 0 {
        reports_of_a_stopped_search_do_nothing(doc, reports.drop_last());
        reveal(DocView::search_reported);
    }
}

/// Confirming a query that can be read starts the search for it: a search that runs is stopped,
/// its matches are gone, and no match is gone to. A query that cannot be read is answered with
/// what is wrong with it, and only stops the search that runs.
pub proof fn confirming_a_query_starts_the_search(doc: DocView, key: KeyEvent)
    requires
        doc.mode is Search,
        key.code == KeyCode::Enter,
    ensures
        ({
            let query = doc.mode->Search_0.value;
            let after = doc.pressed(key).doc;
            let stopped = if doc.search.worker {
                doc.effects.push(EffectView::CancelSearch)
            } else {
                doc.effects
            };
            &&& after.mode is Normal
            &&& after == DocView {
                mode: after.mode,
                search: after.search,
                effects: after.effects,
                status: after.status,
                ..doc
            }
            &&& search::query_of(query) matches Ok(pattern) ==> {
                &&& after.search.query == query
                &&& after.search.results.len() == 0
                &&& !after.search.has_active_result
                &&& after.search.running && after.search.worker
                &&& after.search.scanned == 0
                &&& after.search.total == doc.length()
                &&& after.effects == stopped.push(EffectView::StartSearch(query))
            }
            &&& search::query_of(query) matches Err(error) ==> {
                &&& after.status == error
                &&& !after.search.running && !after.search.worker
                &&& after.search == SearchView { running: false, worker: false, ..doc.search }
                &&& after.effects == stopped
            }
        }),
{
    reveal(DocView::search_key);
    reveal(DocView::search_started);
    reveal(DocView::search_cancelled);
    reveal(DocView::with_search);
    reveal(DocView::asking);
    reveal(DocView::say);
    reveal(DocView::in_mode);
}

/// Whether `to` is the match after `from` among `count`, the first one after the last.
pub open spec fn follows_around(from: int, to: int, count: int) -> bool {
    0 <= to < count && if from + 1 == count {
        to == 0
    } else {
        to == from + 1
    }
}

proof fn lemma_result_shown(doc: DocView)
    requires
        doc.search.has_active_result,
        0 <= doc.search.current < doc.search.results.len(),
    ensures
        ({
            let after = doc.result_shown();
            let found = doc.search.results[doc.search.current];
            after == DocView {
                selection: Some(Selection { anchor: found.start, cursor: found.end }),
                scroll: doc.scroll_for(found.start as int),
                status: "Match "@ + numbers::decimal((doc.search.current + 1) as nat) + "/"@
                    + numbers::decimal(doc.search.results.len()) + " at 0x"@ + numbers::hex(
                    found.start as nat,
                ) + if doc.search.running {
                    " (search still running)"@
                } else {
                    ""@
                },
                ..doc
            }
        }),
{
    reveal(DocView::result_shown);
    reveal(DocView::selecting_also);
    reveal(DocView::scrolled);
    reveal(DocView::scroll_for);
    reveal(DocView::say);
}

proof fn lemma_step(doc: DocView, state: SearchView)
    requires
        state.has_active_result,
        0 <= state.current < state.results.len(),
    ensures
        ({
            let after = doc.with_search(state).result_shown();
            let found = state.results[state.current];
            after == DocView {
                search: state,
                selection: Some(Selection { anchor: found.start, cursor: found.end }),
                scroll: doc.scroll_for(found.start as int),
                status: "Match "@ + numbers::decimal((state.current + 1) as nat) + "/"@
                    + numbers::decimal(state.results.len()) + " at 0x"@ + numbers::hex(
                    found.start as nat,
                ) + if state.running {
                    " (search still running)"@
                } else {
                    ""@
                },
                ..doc
            }
        }),
{
    reveal(DocView::with_search);
    lemma_result_shown(doc.with_search(state));
    reveal(DocView::scroll_for);
}

/// What a walk through the matches leaves behind: the match at `current` is gone to, and exactly
/// its bytes are selected at the cursor, its first one in sight.
pub open spec fn gone_to(doc: DocView, after: DocView, current: int) -> bool {
    let found = doc.search.results[current];
    &&& after.search == SearchView { current, has_active_result: true, ..doc.search }
    &&& after.selection is Some
    &&& after.selection->Some_0.anchor == found.start
    &&& after.selection->Some_0.cursor == found.end
    &&& doc.visible_rows > 0 ==> after.scroll <= after.row_of(found.start as int) < after.scroll
        + after.visible_rows
    &&& after.status == "Match "@ + numbers::decimal((current + 1) as nat) + "/"@ + numbers::decimal(
        doc.search.results.len(),
    ) + " at 0x"@ + numbers::hex(found.start as nat) + if doc.search.running {
        " (search still running)"@
    } else {
        ""@
    }
    &&& after == DocView {
        search: after.search,
        selection: after.selection,
        scroll: after.scroll,
        status: after.status,
        quit_armed: after.quit_armed,
        ..doc
    }
}

/// The keys for the next match go to the first one at first, then to the one after the last that
/// was gone to, and from the last one to the first again; those for the previous match go the
/// other way around.
#[verifier::spinoff_prover]
#[verifier::rlimit(60)]
pub proof fn keys_walk_through_the_matches(doc: DocView, key: KeyEvent)
    requires
        doc.wf(),
        at_rest(doc),
        doc.search.results.len() > 0,
        doc.search.has_active_result ==> doc.search.current < doc.search.results.len(),
        doc.scroll >= 0,
    ensures
        ({
            let count = doc.search.results.len() as int;
            let after = doc.pressed(key).doc;
            let to = after.search.current;
            let next = (unmodified(key) && key.code == KeyCode::Char('n')) || (
            key.modifiers.control && key.code == KeyCode::Down);
            let previous = (unmodified(key) && key.code == KeyCode::Char('N')) || (
            key.modifiers.control && key.code == KeyCode::Up);
            &&& next || previous ==> 0 <= to < count && gone_to(doc, after, to)
            &&& next && !doc.search.has_active_result ==> to == 0
            &&& next && doc.search.has_active_result ==> follows_around(
                doc.search.current,
                to,
                count,
            )
            &&& previous && !doc.search.has_active_result ==> to == count - 1
            &&& previous && doc.search.has_active_result ==> follows_around(
                to,
                doc.search.current,
                count,
            )
        }),
{
    reveal(app::search_ok);
    reveal(app::layout_ok);
    let count = doc.search.results.len() as int;
    let state = doc.search;
    let next = (unmodified(key) && key.code == KeyCode::Char('n')) || (key.modifiers.control
        && key.code == KeyCode::Down);
    let previous = (unmodified(key) && key.code == KeyCode::Char('N')) || (key.modifiers.control
        && key.code == KeyCode::Up);
    if next || previous {
        lemma_walking_keys(doc, key);
        let to = if next {
            if state.has_active_result && state.current + 1 < count {
                state.current + 1
            } else {
                0
            }
        } else if state.has_active_result && state.current > 0 {
            state.current - 1
        } else {
            count - 1
        };
        let stepped = SearchView { current: to, has_active_result: true, ..state };
        lemma_step(doc, stepped);
        let found = state.results[to];
        assert(found.start <= found.end < doc.length());
        reveal(DocView::next_result);
        reveal(DocView::previous_result);
        reveal(DocView::armed);
        if next && state.has_active_result {
            if state.current + 1 < count {
                vstd::arithmetic::div_mod::lemma_small_mod(
                    (state.current + 1) as nat,
                    count as nat,
                );
            } else {
                vstd::arithmetic::div_mod::lemma_mod_self_0(count);
            }
        }
        if doc.visible_rows > 0 {
            app::shown_bytes_are_in_sight(doc, found.start as int);
            reveal(DocView::scrolled);
        }
    }
}

proof fn lemma_walking_keys(doc: DocView, key: KeyEvent)
    requires
        at_rest(doc),
    ensures
        unmodified(key) && key.code == KeyCode::Char('n') ==> doc.pressed(key).doc
            == doc.next_result().armed(false),
        unmodified(key) && key.code == KeyCode::Char('N') ==> doc.pressed(key).doc
            == doc.previous_result().armed(false),
        key.modifiers.control && key.code == KeyCode::Down ==> doc.pressed(key).doc
            == doc.next_result(),
        key.modifiers.control && key.code == KeyCode::Up ==> doc.pressed(key).doc
            == doc.previous_result(),
{
    reveal(DocView::normal_key);
    reveal(DocView::view_key);
    reveal(DocView::view_plain_key);
    reveal(DocView::view_character);
    reveal(DocView::view_control_key);
}

/// A report of progress tells how far the search has come, and a batch adds its matches behind those
/// that are there; neither changes which match is gone to.
pub proof fn reports_are_taken_up(doc: DocView, message: MessageView)
    requires
        doc.search.worker,
    ensures
        ({
            let after = doc.search_reported(message);
            &&& message matches MessageView::Progress(scanned) ==> after == DocView {
                search: SearchView { scanned, ..doc.search },
                ..doc
            }
            &&& message matches MessageView::Batch(batch) ==> after == DocView {
                search: SearchView { results: doc.search.results + batch, ..doc.search },
                status: after.status,
                ..doc
            }
            &&& message matches MessageView::Error(error) ==> after == DocView {
                search: SearchView { running: false, worker: false, ..doc.search },
                status: "Search failed: "@ + error,
                ..doc
            }
        }),
{
    reveal(DocView::search_reported);
    reveal(DocView::with_search);
    reveal(DocView::say);
}

/// Keys in the input of a search or of an offset edit what is typed there, and the escape key leaves
/// it; nothing else changes.
pub proof fn inputs_are_edited(doc: DocView, key: KeyEvent)
    requires
        doc.mode is Search || doc.mode is Jump,
        key.code != KeyCode::Enter,
    ensures
        ({
            let after = doc.pressed(key).doc;
            &&& after == DocView { mode: after.mode, ..doc }
            &&& key.code == KeyCode::Esc ==> after.mode is Normal
            &&& key.code != KeyCode::Esc && doc.mode is Search ==> after.mode is Search
                && after.mode->Search_0 == doc.mode->Search_0.after_key(key)
            &&& key.code != KeyCode::Esc && doc.mode is Jump ==> after.mode is Jump
                && after.mode->Jump_0 == doc.mode->Jump_0.after_key(key)
        }),
{
    reveal(DocView::search_key);
    reveal(DocView::jump_key);
    reveal(DocView::in_mode);
}

/// Whether no report is larger than it may be: a batch holds one match at least, and no more than are
/// reported together.
pub open spec fn batches_fit(reports: Seq<MessageView>) -> bool {
    forall|i: int|
        0 <= i < reports.len() && (#[trigger] reports[i]) is Batch ==> 0 < reports[i]->Batch_0.len()
            <= 256
}

proof fn lemma_batches_fit(left: Seq<MessageView>, right: Seq<MessageView>)
    requires
        batches_fit(left),
        batches_fit(right),
    ensures
        batches_fit(left + right),
{
    let all = left + right;
    assert forall|i: int| 0 <= i < all.len() && (#[trigger] all[i]) is Batch implies 0
        < all[i]->Batch_0.len() <= 256 by {
        if i < left.len() {
            assert(all[i] == left[i]);
        } else {
            assert(all[i] == right[i - left.len()]);
        }
    }
}

proof fn lemma_small_reports(batch: Seq<SearchMatch>, at: int)
    requires
        batch.len() <= 256,
    ensures
        batches_fit(search::handed_over(batch)),
        batches_fit(search::filled(batch)),
        batches_fit(search::closing(batch, at)),
        batches_fit(search::handed_over(batch).push(MessageView::Progress(at))),
        search::unfilled(batch).len() < 256,
{
}

proof fn lemma_masked_batches(
    bytes: Seq<u8>,
    pattern: Seq<Option<u8>>,
    start: int,
    batch: Seq<SearchMatch>,
)
    requires
        batch.len() < 256,
    ensures
        batches_fit(search::masked_stream(bytes, pattern, start, batch)),
    decreases search::places(bytes, pattern) - start,
{
    let places = search::places(bytes, pattern);
    if places == 0 {
    } else if start >= places {
        lemma_small_reports(batch, bytes.len() as int);
    } else {
        let grown = search::batch_with(bytes, pattern, start, batch);
        let left = search::place_kept(bytes, pattern, start, batch);
        lemma_small_reports(grown, start);
        lemma_small_reports(left, start);
        let after = search::place_batch(bytes, pattern, start, batch);
        lemma_masked_batches(bytes, pattern, start + 1, after);
        let first = if search::fits(bytes, pattern, start) {
            search::filled(grown)
        } else {
            Seq::empty()
        };
        lemma_batches_fit(first, search::handed_over(left).push(MessageView::Progress(start)));
        lemma_batches_fit(
            search::place_reports(bytes, pattern, start, batch),
            search::masked_stream(bytes, pattern, start + 1, after),
        );
    }
}

proof fn lemma_regex_batches(
    hits: Seq<SearchMatch>,
    next: int,
    last_progress: int,
    batch: Seq<SearchMatch>,
    length: int,
)
    requires
        batch.len() < 256,
    ensures
        batches_fit(search::regex_stream(hits, next, last_progress, batch, length)),
    decreases hits.len() - next,
{
    if next >= hits.len() {
        lemma_small_reports(batch, length);
    } else {
        let grown = batch.push(hits[next]);
        let at = hits[next].end + 1;
        lemma_small_reports(grown, at);
        lemma_small_reports(search::unfilled(grown), at);
        let progress = search::found_progress(hits[next], last_progress);
        let after = search::found_batch(hits[next], last_progress, batch);
        lemma_regex_batches(hits, next + 1, progress, after, length);
        lemma_batches_fit(
            search::filled(grown),
            search::handed_over(search::unfilled(grown)).push(MessageView::Progress(at)),
        );
        lemma_batches_fit(
            search::found_reports(hits[next], last_progress, batch),
            search::regex_stream(hits, next + 1, progress, after, length),
        );
    }
}

/// A search reports its matches in batches that are not empty, and of 256 at most.
pub proof fn batches_are_small(bytes: Seq<u8>, pattern: PatternView)
    ensures
        batches_fit(search::stream_of(bytes, pattern)),
{
    match pattern {
        PatternView::Masked(mask) => lemma_masked_batches(bytes, mask, 0, Seq::empty()),
        PatternView::Regex(_) => lemma_regex_batches(
            search::matches_of(bytes, pattern),
            0,
            0,
            Seq::empty(),
            bytes.len() as int,
        ),
    }
}

/// A match marks as many bytes as were asked for, from its start on and no others, and so each byte of
/// what was asked for is marked wherever it stands.
pub proof fn found_bytes_are_marked(bytes: Seq<u8>, wanted: Seq<u8>, start: int, offset: int)
    requires
        wanted.len() > 0,
        bytes.len() <= usize::MAX,
        0 <= start,
        start + wanted.len() <= bytes.len(),
        bytes.subrange(start, start + wanted.len()) == wanted,
    ensures
        ({
            let found = search::matches_of(bytes, PatternView::Masked(search::exactly(wanted)));
            &&& start <= offset < start + wanted.len() ==> exists|i: int|
                0 <= i < found.len() && (#[trigger] found[i]).covers(offset)
            &&& forall|i: int|
                0 <= i < found.len() && (#[trigger] found[i]).covers(offset) ==> found[i].start
                    <= offset < found[i].start + wanted.len()
        }),
{
    let pattern = search::exactly(wanted);
    let found = search::matches_of(bytes, PatternView::Masked(pattern));
    let hit = SearchMatch { start: start as usize, end: (start + wanted.len() - 1) as usize };
    bytes_are_found_where_they_stand(bytes, wanted, start);
    assert(found.contains(hit));
    let k = choose|k: int| 0 <= k < found.len() && found[k] == hit;
    assert(start <= offset < start + wanted.len() ==> found[k].covers(offset));
    assert forall|i: int| 0 <= i < found.len() && (#[trigger] found[i]).covers(offset) implies found[i].start
        <= offset < found[i].start + wanted.len() by {
        assert(found.contains(found[i]));
        search::masked_search_is_exact(bytes, pattern, found[i]);
    }
}


/// Whether each report of progress is at an offset where one is due, or tells that all was read.
pub open spec fn progress_is_due(reports: Seq<MessageView>, length: int) -> bool {
    forall|i: int|
        0 <= i < reports.len() && (#[trigger] reports[i]) is Progress ==> {
            let at = reports[i]->Progress_0;
            at == length || (0 < at && at % 1_048_576 == 0)
        }
}

proof fn lemma_progress_is_due(left: Seq<MessageView>, right: Seq<MessageView>, length: int)
    requires
        progress_is_due(left, length),
        progress_is_due(right, length),
    ensures
        progress_is_due(left + right, length),
{
    let all = left + right;
    assert forall|i: int| 0 <= i < all.len() && (#[trigger] all[i]) is Progress implies ({
        let at = all[i]->Progress_0;
        at == length || (0 < at && at % 1_048_576 == 0)
    }) by {
        if i < left.len() {
            assert(all[i] == left[i]);
        } else {
            assert(all[i] == right[i - left.len()]);
        }
    }
}

proof fn lemma_masked_progress(
    bytes: Seq<u8>,
    pattern: Seq<Option<u8>>,
    start: int,
    batch: Seq<SearchMatch>,
)
    ensures
        progress_is_due(search::masked_stream(bytes, pattern, start, batch), bytes.len() as int),
    decreases search::places(bytes, pattern) - start,
{
    let places = search::places(bytes, pattern);
    if places != 0 && start < places {
        let after = search::place_batch(bytes, pattern, start, batch);
        lemma_masked_progress(bytes, pattern, start + 1, after);
        lemma_progress_is_due(
            search::place_reports(bytes, pattern, start, batch),
            search::masked_stream(bytes, pattern, start + 1, after),
            bytes.len() as int,
        );
    }
}

/// A search for bytes reports its progress at each offset that is a multiple of one fixed distance, and
/// at the end of the file, and nowhere else.
pub proof fn progress_is_reported_at_a_distance(
    bytes: Seq<u8>,
    pattern: Seq<Option<u8>>,
    batch: Seq<SearchMatch>,
    at: int,
)
    requires
        0 < at < search::places(bytes, pattern),
        at % 1_048_576 == 0,
    ensures
        progress_is_due(
            search::stream_of(bytes, PatternView::Masked(pattern)),
            bytes.len() as int,
        ),
        search::place_reports(bytes, pattern, at, batch).contains(MessageView::Progress(at)),
{
    lemma_masked_progress(bytes, pattern, 0, Seq::empty());
    let reports = search::place_reports(bytes, pattern, at, batch);
    assert(reports.last() == MessageView::Progress(at));
}


} // verus!
