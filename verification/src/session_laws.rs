//! What the keys, the players and the panes do with the playhead and with each other.
use vstd::prelude::*;

use crate::media_view::{place_spec, Place};
use crate::panes::{
    common_len, empty_ids, shared_len, shared_prefix_spec, short_label_spec, without,
    without_plot, PlotEntry, PlotId, PlotSpec,
};
use crate::playback::{AudioSync, MAX_DRIFT, MAX_SCRUB};
use crate::shortcuts::{obeyed, step_spec, Command, Modifiers};
use crate::text::last_of;
use crate::text_laws::{lacks, the_last_is_the_last};
use crate::timeline::Timeline;

verus! {

broadcast use vstd::seq_lib::group_seq_properties;

/// Home goes to the first instant there is and End to the last, and neither changes anything
/// else.
pub proof fn home_and_end_are_the_ends(t: Timeline, lo: i64, hi: i64, at: i64)
    requires
        lo <= at <= hi,
    ensures
        ({
            let home = obeyed(t, Command::JumpToStart, Some((lo, hi)));
            let end = obeyed(t, Command::JumpToEnd, Some((lo, hi)));
            &&& lo <= home.cursor <= at
            &&& at <= end.cursor <= hi
            &&& home == (Timeline { cursor: home.cursor, ..t })
            &&& end == (Timeline { cursor: end.cursor, ..t })
        }),
{
}

/// A step moves the playhead by what it is of and stops it, and goes no further than the ends;
/// a step back inside of them leads back to where it was.
pub proof fn a_step_moves_the_playhead(t: Timeline, delta: i64, lo: i64, hi: i64)
    requires
        lo <= t.cursor + delta <= hi,
        lo <= t.cursor <= hi,
        delta > i64::MIN,
    ensures
        ({
            let there = obeyed(t, Command::Step(delta), Some((lo, hi)));
            let back = obeyed(there, Command::Step((0 - delta) as i64), Some((lo, hi)));
            &&& there.cursor - t.cursor == delta
            &&& !there.playing
            &&& back.cursor == t.cursor
            &&& there == (Timeline { cursor: there.cursor, playing: false, ..t })
        }),
{
}

/// Shift makes an arrow's step ten times as long, and alt a tenth.
pub proof fn modifiers_scale_a_step(held: Modifiers)
    ensures
        held.shift ==> step_spec(held) == 10 * step_spec(
            (Modifiers { shift: false, alt: false, ..held }),
        ),
        held.alt && !held.shift ==> 10 * step_spec(held) == step_spec(
            (Modifiers { shift: false, alt: false, ..held }),
        ),
        !held.shift && !held.alt ==> step_spec(held) == 1_000_000,
{
}

/// A player is never sent anywhere but to the playhead, or to its start while the playhead is in
/// front of that.
pub proof fn a_player_is_sent_to_the_playhead(
    s: AudioSync,
    target: i64,
    playing: bool,
    actual: i64,
)
    ensures
        s.seek_spec(target, playing, actual) matches Some(at) ==> at == if target >= 0 {
            target
        } else {
            0
        },
        playing != s.last_playing ==> s.seek_spec(target, playing, actual) is Some,
        target >= 0 && playing && (actual > target + MAX_DRIFT || actual < target - MAX_DRIFT)
            ==> s.seek_spec(target, playing, actual) is Some,
        target >= 0 && playing == s.last_playing && playing && target - MAX_DRIFT <= actual <= target
            + MAX_DRIFT ==> s.seek_spec(target, playing, actual) is None,
        target >= 0 && !playing && (s.last_synced_at > target + MAX_SCRUB || s.last_synced_at
            < target - MAX_SCRUB) ==> s.seek_spec(target, playing, actual) is Some,
        target >= 0 && playing == s.last_playing && !playing && target - MAX_SCRUB
            <= s.last_synced_at <= target + MAX_SCRUB ==> s.seek_spec(target, playing, actual)
            is None,
{
}

/// A recording is on while its clock is between nought and its length, its last instant
/// counted in.
pub proof fn a_recording_is_on_while_it_lasts(local: i64, duration: i64)
    requires
        duration >= 0,
    ensures
        0 <= local <= duration <==> place_spec(local, duration) == Place::During,
        local < 0 <==> place_spec(local, duration) == Place::Before,
        local > duration <==> place_spec(local, duration) == Place::After,
{
}

/// The part in front of a name's last dot is left out of its short form, and nothing else.
pub proof fn a_short_label_is_what_follows_the_last_dot(front: Seq<char>, field: Seq<char>)
    requires
        lacks(field, '.'),
    ensures
        short_label_spec(front + seq!['.'] + field) == field,
        short_label_spec(field) == field,
{
    let s = front + seq!['.'] + field;
    the_last_is_the_last(s, '.');
    the_last_is_the_last(field, '.');
    let i = last_of(s, '.');
    assert(s[front.len() as int] == '.');
    if i > front.len() {
        assert(s[i] == field[i - front.len() - 1]);
    }
    assert(i == front.len());
    assert(s.skip(i + 1) =~= field);
    if last_of(field, '.') >= 0 {
        assert(field[last_of(field, '.')] == '.');
    }
    assert(field.skip(0) =~= field);
}

proof fn lemma_common(a: Seq<char>, b: Seq<char>, n: int)
    requires
        0 <= n <= a.len(),
        n <= b.len(),
        a.take(n) == b.take(n),
    ensures
        common_len(a, b) >= n,
    decreases a.len(),
{
    if n > 0 {
        assert(a[0] == a.take(n)[0] && b[0] == b.take(n)[0]);
        assert(a.drop_first().take(n - 1) =~= a.take(n).drop_first());
        assert(b.drop_first().take(n - 1) =~= b.take(n).drop_first());
        lemma_common(a.drop_first(), b.drop_first(), n - 1);
    } else {
        lemma_common_is_a_length(a, b);
    }
}

proof fn lemma_common_is_a_length(a: Seq<char>, b: Seq<char>)
    ensures
        0 <= common_len(a, b) <= a.len(),
    decreases a.len(),
{
    if a.len() > 0 && b.len() > 0 && a[0] == b[0] {
        lemma_common_is_a_length(a.drop_first(), b.drop_first());
    }
}

proof fn lemma_shared(names: Seq<Seq<char>>, prefix: Seq<char>, n: nat)
    requires
        0 < n <= names.len(),
        forall|k: int|
            0 <= k < names.len() ==> prefix.len() <= (#[trigger] names[k]).len() && names[k].take(
                prefix.len() as int,
            ) == prefix,
    ensures
        prefix.len() <= shared_len(names, n) <= names[0].len(),
    decreases n,
{
    if n > 1 {
        lemma_shared(names, prefix, (n - 1) as nat);
        lemma_common(names[0], names[n - 1], prefix.len() as int);
    }
}

/// No longer beginning that ends in a dot is shared by all the names than the one that is taken
/// for shared.
pub proof fn the_shared_prefix_is_the_longest(names: Seq<Seq<char>>, prefix: Seq<char>)
    requires
        names.len() > 0,
        prefix.len() > 0 && prefix.last() == '.',
        forall|k: int|
            0 <= k < names.len() ==> prefix.len() <= (#[trigger] names[k]).len() && names[k].take(
                prefix.len() as int,
            ) == prefix,
    ensures
        shared_prefix_spec(names).len() >= prefix.len(),
{
    lemma_shared(names, prefix, names.len());
    let alike = names[0].take(shared_len(names, names.len()));
    the_last_is_the_last(alike, '.');
    let dot = prefix.len() - 1;
    assert(names[0].take(prefix.len() as int)[dot] == prefix[dot]);
    assert(alike[dot] == '.');
    assert(last_of(alike, '.') >= dot);
}

/// What is taken out of a graph is what was named, and nothing else: an entry stays if it is of
/// another source, or of another series where one was named.
pub proof fn only_what_was_named_is_taken_out(
    entries: Seq<PlotEntry>,
    source: u64,
    series: Option<Seq<char>>,
    e: PlotEntry,
)
    ensures
        without(entries, source, series).contains(e) <==> entries.contains(e) && !(e.source
            == source && (series matches Some(name) ==> e.series@ == name)),
        without(entries, source, series).len() <= entries.len(),
    decreases entries.len(),
{
    if entries.len() > 0 {
        let front = entries.drop_last();
        only_what_was_named_is_taken_out(front, source, series, e);
        let last = entries.last();
        assert(entries =~= front.push(last));
        assert(entries.contains(e) <==> front.contains(e) || e == last) by {
            if front.contains(e) {
                assert(entries[front.index_of(e)] == e);
            }
            if entries.contains(e) {
                let i = entries.index_of(e);
                if i < front.len() {
                    assert(front[i] == e);
                }
            }
            if e == last {
                assert(entries[front.len() as int] == e);
            }
        }
        let rest = without(front, source, series);
        assert(rest.push(last).contains(e) <==> rest.contains(e) || e == last) by {
            if rest.contains(e) {
                assert(rest.push(last)[rest.index_of(e)] == e);
            }
            assert(rest.push(last)[rest.len() as int] == last);
        }
    }
}

/// Closing a graph leaves the others, and it leaves none of its id.
pub proof fn only_the_closed_graph_goes(list: Seq<PlotSpec>, id: PlotId, p: PlotSpec)
    ensures
        without_plot(list, id).contains(p) <==> list.contains(p) && p.id != id,
    decreases list.len(),
{
    if list.len() > 0 {
        let front = list.drop_last();
        only_the_closed_graph_goes(front, id, p);
        let last = list.last();
        assert(list.contains(p) <==> front.contains(p) || p == last) by {
            if front.contains(p) {
                assert(list[front.index_of(p)] == p);
            }
            if list.contains(p) {
                let i = list.index_of(p);
                if i < front.len() {
                    assert(front[i] == p);
                }
            }
            if p == last {
                assert(list[front.len() as int] == p);
            }
        }
        let rest = without_plot(front, id);
        assert(rest.push(last).contains(p) <==> rest.contains(p) || p == last) by {
            if rest.contains(p) {
                assert(rest.push(last)[rest.index_of(p)] == p);
            }
            assert(rest.push(last)[rest.len() as int] == last);
        }
    }
}

/// A graph counts as empty when nothing is in it, and only then.
pub proof fn an_empty_graph_has_no_entries(list: Seq<PlotSpec>, id: PlotId)
    ensures
        empty_ids(list).contains(id) <==> exists|i: int|
            0 <= i < list.len() && (#[trigger] list[i]).id == id && list[i].entries@.len() == 0,
    decreases list.len(),
{
    if list.len() > 0 {
        let front = list.drop_last();
        an_empty_graph_has_no_entries(front, id);
        let last = list.last();
        let rest = empty_ids(front);
        assert(rest.push(last.id).contains(id) <==> rest.contains(id) || id == last.id) by {
            if rest.contains(id) {
                assert(rest.push(last.id)[rest.index_of(id)] == id);
            }
            assert(rest.push(last.id)[rest.len() as int] == last.id);
        }
        if rest.contains(id) {
            let i = choose|i: int|
                0 <= i < front.len() && (#[trigger] front[i]).id == id && front[i].entries@.len()
                    == 0;
            assert(list[i] == front[i]);
        }
        if exists|i: int|
            0 <= i < list.len() && (#[trigger] list[i]).id == id && list[i].entries@.len() == 0 {
            let i = choose|i: int|
                0 <= i < list.len() && (#[trigger] list[i]).id == id && list[i].entries@.len()
                    == 0;
            if i < front.len() {
                assert(front[i].id == id);
            }
        }
        assert(list[front.len() as int] == last);
    }
}

} // verus!
