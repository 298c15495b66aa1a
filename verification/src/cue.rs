//! Display-state transitions: how cues become a queue of transitions, and how
//! the transitions that media has reached become changes of the display.
//!
//! FLV captions are strictly state replacement. Text displays until another
//! state arrives, and a timed cue ends because a clear that belongs to it was
//! queued beside it. Transitions at one timestamp are applied together, so a
//! replacement never exposes a transient blank.
use crate::amf;
use crate::amf::{script_data_body, MessageName};
use crate::flv;
use crate::flv::script_data_tag;
use vstd::prelude::*;

verus! {

/// What a transition does to the display.
#[derive(Debug)]
pub enum TransitionKind {
    Show { generation: u64, text: String },
    /// `Some` is a timed cue's scheduled end; `None` is an explicit clear.
    Clear { owner: Option<u64> },
}

/// A display-state transition waiting for media to reach its running time, in
/// nanoseconds.
#[derive(Debug)]
pub struct PendingTransition {
    pub running_time: u64,
    pub sequence: u64,
    pub kind: TransitionKind,
}

/// A transition that media has reached, with the tag timestamp it goes out at.
#[derive(Debug)]
pub struct ReachedTransition {
    pub timestamp_ms: u64,
    pub sequence: u64,
    pub kind: TransitionKind,
}

/// The cue on display.
#[derive(Debug)]
pub struct ActiveState {
    pub generation: u64,
    pub text: String,
}

/// What a transition does to the display, as a mathematical value.
pub enum Kind {
    Show { generation: u64, text: Seq<char> },
    Clear { owner: Option<u64> },
}

/// A waiting transition, as a mathematical value.
pub struct Transition {
    pub running_time: u64,
    pub sequence: u64,
    pub kind: Kind,
}

/// A reached transition, as a mathematical value.
pub struct Reached {
    pub timestamp_ms: u64,
    pub sequence: u64,
    pub kind: Kind,
}

/// The cue on display, as a mathematical value.
pub struct Active {
    pub generation: u64,
    pub text: Seq<char>,
}

impl View for TransitionKind {
    type V = Kind;

    open spec fn view(&self) -> Kind {
        match *self {
            TransitionKind::Show { generation, text } => Kind::Show { generation, text: text@ },
            TransitionKind::Clear { owner } => Kind::Clear { owner },
        }
    }
}

impl View for PendingTransition {
    type V = Transition;

    open spec fn view(&self) -> Transition {
        Transition {
            running_time: self.running_time,
            sequence: self.sequence,
            kind: self.kind@,
        }
    }
}

impl View for ReachedTransition {
    type V = Reached;

    open spec fn view(&self) -> Reached {
        Reached {
            timestamp_ms: self.timestamp_ms,
            sequence: self.sequence,
            kind: self.kind@,
        }
    }
}

impl View for ActiveState {
    type V = Active;

    open spec fn view(&self) -> Active {
        Active { generation: self.generation, text: self.text@ }
    }
}

/// The queue of transitions as a mathematical sequence.
pub open spec fn transitions(pending: Seq<PendingTransition>) -> Seq<Transition> {
    pending.map_values(|transition: PendingTransition| transition@)
}

/// The reached transitions as a mathematical sequence.
pub open spec fn reached_view(reached: Seq<ReachedTransition>) -> Seq<Reached> {
    reached.map_values(|transition: ReachedTransition| transition@)
}

/// The display as a mathematical value.
pub open spec fn display(active: Option<ActiveState>) -> Option<Active> {
    match active {
        Some(state) => Some(state@),
        None => None,
    }
}

/// Ordering key of a waiting transition: media time, then arrival.
pub open spec fn time_key() -> spec_fn(Transition) -> (int, int) {
    |transition: Transition| (transition.running_time as int, transition.sequence as int)
}

/// Ordering key of a reached transition: tag timestamp, then arrival.
pub open spec fn timestamp_key() -> spec_fn(Reached) -> (int, int) {
    |transition: Reached| (transition.timestamp_ms as int, transition.sequence as int)
}

/// Lexicographic order on keys.
pub open spec fn key_le(left: (int, int), right: (int, int)) -> bool {
    left.0 < right.0 || (left.0 == right.0 && left.1 <= right.1)
}

/// `items` with `item` placed behind the last one whose key is not above its own.
pub open spec fn insert_ordered<T>(items: Seq<T>, key: spec_fn(T) -> (int, int), item: T) -> Seq<T>
    decreases items.len(),
{
    if items.len() == 0 || key_le(key(items.last()), key(item)) {
        items.push(item)
    } else {
        insert_ordered(items.drop_last(), key, item).push(items.last())
    }
}

/// `items` in the order of their keys; equal keys stay in the order they have.
pub open spec fn in_order<T>(items: Seq<T>, key: spec_fn(T) -> (int, int)) -> Seq<T>
    decreases items.len(),
{
    if items.len() == 0 {
        items
    } else {
        insert_ordered(in_order(items.drop_last(), key), key, items.last())
    }
}

/// Where the items that pass a filter stood: a filter keeps their order.
pub proof fn filter_positions<T>(items: Seq<T>, keep: spec_fn(T) -> bool) -> (positions: Seq<int>)
    ensures
        positions.len() == items.filter(keep).len(),
        forall|i: int|
            0 <= i < positions.len() ==> 0 <= #[trigger] positions[i] < items.len() && items.filter(
                keep,
            )[i] == items[positions[i]] && keep(items[positions[i]]),
        forall|i: int, j: int|
            0 <= i < j < positions.len() ==> #[trigger] positions[i] < #[trigger] positions[j],
    decreases items.len(),
{
    reveal(Seq::filter);
    if items.len() == 0 {
        Seq::empty()
    } else {
        let front = filter_positions(items.drop_last(), keep);
        if keep(items.last()) {
            front.push(items.len() - 1)
        } else {
            front
        }
    }
}

/// Whether keys never fall from one item to a later one.
pub open spec fn is_ordered<T>(items: Seq<T>, key: spec_fn(T) -> (int, int)) -> bool {
    forall|i: int, j: int|
        #![trigger items[i], items[j]]
        0 <= i <= j < items.len() ==> key_le(key(items[i]), key(items[j]))
}

/// Inserting keeps the order and adds exactly the one item.
pub proof fn insertion_keeps_order<T>(items: Seq<T>, key: spec_fn(T) -> (int, int), item: T)
    requires
        is_ordered(items, key),
    ensures
        is_ordered(insert_ordered(items, key, item), key),
        insert_ordered(items, key, item).len() == items.len() + 1,
        insert_ordered(items, key, item).to_multiset() =~= items.to_multiset().insert(item),
    decreases items.len(),
{
    broadcast use vstd::seq_lib::group_to_multiset_ensures;

    let result = insert_ordered(items, key, item);
    if items.len() == 0 || key_le(key(items.last()), key(item)) {
        assert forall|i: int, j: int| 0 <= i <= j < result.len() implies key_le(
            key(#[trigger] result[i]),
            key(#[trigger] result[j]),
        ) by {
            if j == items.len() && i < items.len() {
                assert(key_le(key(items[i]), key(items[items.len() - 1])));
            }
        }
    } else {
        let front = items.drop_last();
        let last = items.last();
        insertion_keeps_order(front, key, item);
        let inner = insert_ordered(front, key, item);
        assert(items =~= front.push(last));
        assert forall|i: int| 0 <= i < inner.len() implies key_le(
            key(#[trigger] inner[i]),
            key(last),
        ) by {
            assert(inner.to_multiset().count(inner[i]) > 0);
            if inner[i] != item {
                assert(front.to_multiset().count(inner[i]) > 0);
                assert(front.contains(inner[i]));
                let k = choose|k: int| 0 <= k < front.len() && front[k] == inner[i];
                assert(key_le(key(items[k]), key(items[items.len() - 1])));
            }
        }
    }
}

/// Inserting puts the item at one place and shifts what stands behind it.
pub proof fn insertion_places_one<T>(items: Seq<T>, key: spec_fn(T) -> (int, int), item: T) -> (at:
    int)
    ensures
        0 <= at <= items.len(),
        insert_ordered(items, key, item) == items.insert(at, item),
    decreases items.len(),
{
    if items.len() == 0 || key_le(key(items.last()), key(item)) {
        assert(items.insert(items.len() as int, item) =~= items.push(item));
        items.len() as int
    } else {
        let front = items.drop_last();
        let at = insertion_places_one(front, key, item);
        assert(items.insert(at, item) =~= front.insert(at, item).push(items.last()));
        at
    }
}

/// Ordering orders, and keeps exactly the items it is given.
pub proof fn ordering_orders<T>(items: Seq<T>, key: spec_fn(T) -> (int, int))
    ensures
        is_ordered(in_order(items, key), key),
        in_order(items, key).len() == items.len(),
        in_order(items, key).to_multiset() =~= items.to_multiset(),
    decreases items.len(),
{
    broadcast use vstd::seq_lib::group_to_multiset_ensures;

    if items.len() > 0 {
        ordering_orders(items.drop_last(), key);
        insertion_keeps_order(in_order(items.drop_last(), key), key, items.last());
        assert(items =~= items.drop_last().push(items.last()));
    }
}

/// Insertion lands between the items that are not above and those that are.
proof fn insertion_point<T>(items: Seq<T>, key: spec_fn(T) -> (int, int), item: T, at: int)
    requires
        0 <= at <= items.len(),
        at > 0 ==> key_le(key(items[at - 1]), key(item)),
        forall|i: int| at <= i < items.len() ==> !key_le(key(#[trigger] items[i]), key(item)),
    ensures
        insert_ordered(items, key, item) == items.insert(at, item),
    decreases items.len(),
{
    if at == items.len() {
        assert(items.insert(at, item) =~= items.push(item));
    } else {
        let front = items.drop_last();
        assert forall|i: int| at <= i < front.len() implies !key_le(
            key(#[trigger] front[i]),
            key(item),
        ) by {
            assert(front[i] == items[i]);
        }
        insertion_point(front, key, item, at);
        assert(items.insert(at, item) =~= front.insert(at, item).push(items.last()));
    }
}

/// Queues a transition behind those that come before it.
pub fn insert_pending(pending: &mut Vec<PendingTransition>, transition: PendingTransition)
    ensures
        transitions(final(pending)@) == insert_ordered(
            transitions(old(pending)@),
            time_key(),
            transition@,
        ),
        final(pending)@.len() == old(pending)@.len() + 1,
{
    let ghost before = transitions(pending@);
    let mut at: usize = pending.len();
    while at > 0 && (pending[at - 1].running_time > transition.running_time || (pending[at
        - 1].running_time == transition.running_time && pending[at - 1].sequence
        > transition.sequence))
        invariant
            at <= pending@.len(),
            before == transitions(pending@),
            forall|i: int|
                at <= i < before.len() ==> !key_le(
                    time_key()(#[trigger] before[i]),
                    time_key()(transition@),
                ),
        decreases at,
    {
        at = at - 1;
    }
    proof {
        insertion_point(before, time_key(), transition@, at as int);
    }
    let ghost entry = transition@;
    pending.insert(at, transition);
    assert(transitions(pending@) =~= before.insert(at as int, entry));
}

/// Places a reached transition behind those that come before it.
pub fn insert_reached(reached: &mut Vec<ReachedTransition>, transition: ReachedTransition)
    ensures
        reached_view(final(reached)@) == insert_ordered(
            reached_view(old(reached)@),
            timestamp_key(),
            transition@,
        ),
        final(reached)@.len() == old(reached)@.len() + 1,
{
    let ghost before = reached_view(reached@);
    let mut at: usize = reached.len();
    while at > 0 && (reached[at - 1].timestamp_ms > transition.timestamp_ms || (reached[at
        - 1].timestamp_ms == transition.timestamp_ms && reached[at - 1].sequence
        > transition.sequence))
        invariant
            at <= reached@.len(),
            before == reached_view(reached@),
            forall|i: int|
                at <= i < before.len() ==> !key_le(
                    timestamp_key()(#[trigger] before[i]),
                    timestamp_key()(transition@),
                ),
        decreases at,
    {
        at = at - 1;
    }
    proof {
        insertion_point(before, timestamp_key(), transition@, at as int);
    }
    let ghost entry = transition@;
    reached.insert(at, transition);
    assert(reached_view(reached@) =~= before.insert(at as int, entry));
}

/// The display after one transition. A clear that belongs to a cue only ends
/// that cue: an overlapping replacement has already taken the display over.
pub open spec fn apply(active: Option<Active>, kind: Kind) -> Option<Active> {
    match kind {
        Kind::Show { generation, text } => Some(Active { generation, text }),
        Kind::Clear { owner } => match owner {
            None => None,
            Some(generation) => if active matches Some(state) && state.generation == generation {
                None
            } else {
                active
            },
        },
    }
}

/// The display after several transitions, one after another.
pub open spec fn apply_all(active: Option<Active>, reached: Seq<Reached>) -> Option<Active>
    decreases reached.len(),
{
    if reached.len() == 0 {
        active
    } else {
        apply_all(apply(active, reached[0].kind), reached.drop_first())
    }
}

/// The text on display, if any.
pub open spec fn visible(active: Option<Active>) -> Option<Seq<char>> {
    match active {
        Some(state) => Some(state.text),
        None => None,
    }
}

/// The text that a tag for this display carries: empty text clears.
pub open spec fn shown_text(active: Option<Active>) -> Seq<char> {
    match active {
        Some(state) => state.text,
        None => Seq::empty(),
    }
}

/// How many transitions in front share the timestamp `timestamp_ms`.
pub open spec fn run_length(reached: Seq<Reached>, timestamp_ms: u64) -> nat
    decreases reached.len(),
{
    if reached.len() == 0 || reached[0].timestamp_ms != timestamp_ms {
        0
    } else {
        1 + run_length(reached.drop_first(), timestamp_ms)
    }
}

/// A run does not reach beyond what there is.
pub proof fn run_is_bounded(reached: Seq<Reached>, timestamp_ms: u64)
    ensures
        run_length(reached, timestamp_ms) <= reached.len(),
        reached.len() > 0 && reached[0].timestamp_ms == timestamp_ms ==> run_length(
            reached,
            timestamp_ms,
        ) > 0,
    decreases reached.len(),
{
    if reached.len() > 0 {
        run_is_bounded(reached.drop_first(), timestamp_ms);
    }
}

/// A change of the display that goes out as a tag; empty text is a clear.
pub struct Change {
    pub timestamp_ms: u64,
    pub text: Seq<char>,
}

/// What applying reached transitions amounts to.
pub struct Outcome {
    pub changes: Seq<Change>,
    pub suppressed: nat,
}

/// The changes that ordered transitions make: those at one timestamp are
/// applied together, and only a different final state is a change.
pub open spec fn outcome(active: Option<Active>, reached: Seq<Reached>) -> Outcome
    decreases reached.len(),
{
    if reached.len() == 0 {
        Outcome { changes: Seq::empty(), suppressed: 0 }
    } else {
        let timestamp_ms = reached[0].timestamp_ms;
        let count = run_length(reached, timestamp_ms) as int;
        let next = apply_all(active, reached.take(count));
        proof {
            run_is_bounded(reached, timestamp_ms);
        }
        let rest = outcome(next, reached.skip(count));
        if visible(active) == visible(next) {
            Outcome { changes: rest.changes, suppressed: rest.suppressed + 1 }
        } else {
            let change = Change { timestamp_ms, text: shown_text(next) };
            Outcome { changes: seq![change] + rest.changes, suppressed: rest.suppressed }
        }
    }
}

/// The tag that carries a change.
pub open spec fn change_tag(change: Change, name: MessageName) -> Seq<u8> {
    flv::script_tag(
        flv::saturate_u32(change.timestamp_ms as int),
        amf::message_body(name, change.text, None),
    )
}

/// The tags that carry changes.
pub open spec fn change_tags(changes: Seq<Change>, name: MessageName) -> Seq<Seq<u8>> {
    changes.map_values(|change: Change| change_tag(change, name))
}

/// How many of the changes show text.
pub open spec fn show_count(changes: Seq<Change>) -> nat
    decreases changes.len(),
{
    if changes.len() == 0 {
        0
    } else {
        show_count(changes.drop_last()) + if changes.last().text.len() > 0 {
            1nat
        } else {
            0nat
        }
    }
}

/// Applying one more transition continues where the others left off.
proof fn apply_one_more(active: Option<Active>, reached: Seq<Reached>, more: Reached)
    ensures
        apply_all(active, reached.push(more)) == apply(apply_all(active, reached), more.kind),
    decreases reached.len(),
{
    reveal_with_fuel(apply_all, 2);
    if reached.len() == 0 {
        assert(reached.push(more).drop_first() =~= reached);
    } else {
        apply_one_more(apply(active, reached[0].kind), reached.drop_first(), more);
        assert(reached.push(more).drop_first() =~= reached.drop_first().push(more));
    }
}

/// A run that goes on for another transition is one longer.
proof fn run_goes_on(reached: Seq<Reached>, timestamp_ms: u64, count: int)
    requires
        0 <= count <= reached.len(),
        forall|i: int| 0 <= i < count ==> (#[trigger] reached[i]).timestamp_ms == timestamp_ms,
        count < reached.len() ==> reached[count].timestamp_ms != timestamp_ms,
    ensures
        run_length(reached, timestamp_ms) == count,
    decreases reached.len(),
{
    if count > 0 {
        assert forall|i: int| 0 <= i < count - 1 implies (
        #[trigger] reached.drop_first()[i]).timestamp_ms == timestamp_ms by {
            assert(reached.drop_first()[i] == reached[i + 1]);
        }
        run_goes_on(reached.drop_first(), timestamp_ms, count - 1);
    }
}

/// The display after all transitions does not depend on how they are grouped.
proof fn apply_in_parts(active: Option<Active>, reached: Seq<Reached>, count: int)
    requires
        0 <= count <= reached.len(),
    ensures
        apply_all(active, reached) == apply_all(
            apply_all(active, reached.take(count)),
            reached.skip(count),
        ),
    decreases count,
{
    if count == 0 {
        assert(reached.skip(0) =~= reached);
        assert(reached.take(0) =~= Seq::empty());
    } else {
        let first = reached[0];
        apply_in_parts(apply(active, first.kind), reached.drop_first(), count - 1);
        assert(reached.take(count).drop_first() =~= reached.drop_first().take(count - 1));
        assert(reached.drop_first().skip(count - 1) =~= reached.skip(count));
    }
}

/// The tags that reached transitions give, with a count of each kind.
#[derive(Debug)]
pub struct Coalesced {
    pub tags: Vec<Vec<u8>>,
    pub shows: u64,
    pub clears: u64,
    pub suppressed: u64,
}

/// Tags as byte sequences.
pub open spec fn tag_bytes(tags: Seq<Vec<u8>>) -> Seq<Seq<u8>> {
    tags.map_values(|tag: Vec<u8>| tag@)
}

impl TransitionKind {
    /// Applies the transition to the display.
    pub fn apply_to(&self, active: &mut Option<ActiveState>)
        ensures
            display(*final(active)) == apply(display(*old(active)), self@),
    {
        match self {
            TransitionKind::Show { generation, text } => {
                *active = Some(ActiveState { generation: *generation, text: text.clone() });
            },
            TransitionKind::Clear { owner } => {
                let ends = match owner {
                    None => true,
                    Some(generation) => match active {
                        Some(state) => state.generation == *generation,
                        None => false,
                    },
                };
                if ends {
                    *active = None;
                }
            },
        }
    }
}

/// The text on display, if any.
fn visible_text(active: &Option<ActiveState>) -> (text: Option<String>)
    ensures
        visible(display(*active)) == (match text {
            Some(value) => Some(value@),
            None => None,
        }),
{
    match active {
        Some(state) => Some(state.text.clone()),
        None => None,
    }
}

/// Whether the same text, or none, is on display.
fn same_text(left: &Option<String>, right: &Option<String>) -> (same: bool)
    ensures
        same == match (*left, *right) {
            (Some(one), Some(other)) => one@ == other@,
            (None, None) => true,
            _ => false,
        },
{
    match (left, right) {
        (Some(one), Some(other)) => *one == *other,
        (None, None) => true,
        _ => false,
    }
}

/// Applies reached transitions to the display and serializes its changes.
///
/// Every transition at a timestamp is applied before anything is serialized,
/// so adjacent clears and shows expose only their final state.
pub fn coalesce(
    active: &mut Option<ActiveState>,
    reached: &Vec<ReachedTransition>,
    name: MessageName,
) -> (result: Coalesced)
    ensures
        display(*final(active)) == apply_all(display(*old(active)), reached_view(reached@)),
        ({
            let expected = outcome(display(*old(active)), reached_view(reached@));
            &&& tag_bytes(result.tags@) == change_tags(expected.changes, name)
            &&& result.suppressed == expected.suppressed
            &&& result.shows == show_count(expected.changes)
            &&& result.shows + result.clears == expected.changes.len()
            &&& result.shows + result.clears + result.suppressed <= reached@.len()
        }),
{
    let ghost all = reached_view(reached@);
    let ghost start = display(*active);
    let ghost mut done: Seq<Change> = Seq::empty();
    let mut tags: Vec<Vec<u8>> = Vec::new();
    let mut shows: u64 = 0;
    let mut clears: u64 = 0;
    let mut suppressed: u64 = 0;
    let mut cursor: usize = 0;
    proof {
        assert(all.skip(0) =~= all);
        assert(done + outcome(start, all).changes =~= outcome(start, all).changes);
    }
    while cursor < reached.len()
        invariant
            all == reached_view(reached@),
            cursor <= reached@.len(),
            shows + clears + suppressed <= cursor,
            shows == show_count(done),
            shows + clears == done.len(),
            tag_bytes(tags@) == change_tags(done, name),
            ({
                let rest = outcome(display(*active), all.skip(cursor as int));
                &&& outcome(start, all).changes == done + rest.changes
                &&& outcome(start, all).suppressed == suppressed + rest.suppressed
            }),
            apply_all(start, all) == apply_all(display(*active), all.skip(cursor as int)),
        decreases reached@.len() - cursor,
    {
        let timestamp_ms: u64 = reached[cursor].timestamp_ms;
        let visible_before = visible_text(active);
        let ghost first = cursor as int;
        let ghost before = display(*active);
        let ghost rest = all.skip(first);
        assert(rest[0] == all[first]);
        assert(rest.take(0) =~= Seq::empty());
        while cursor < reached.len() && reached[cursor].timestamp_ms == timestamp_ms
            invariant
                all == reached_view(reached@),
                0 <= first <= cursor <= reached@.len(),
                rest == all.skip(first),
                display(*active) == apply_all(before, rest.take(cursor - first)),
                forall|i: int|
                    0 <= i < cursor - first ==> (#[trigger] rest[i]).timestamp_ms == timestamp_ms,
            decreases reached@.len() - cursor,
        {
            reached[cursor].kind.apply_to(active);
            proof {
                let count = cursor - first;
                assert(rest[count] == all[cursor as int]);
                apply_one_more(before, rest.take(count), rest[count]);
                assert(rest.take(count).push(rest[count]) =~= rest.take(count + 1));
            }
            cursor = cursor + 1;
        }
        proof {
            let count = cursor - first;
            if count == 0 {
                assert(rest[0].timestamp_ms == timestamp_ms);
                assert(reached_view(reached@)[first] == reached@[first]@);
            }
            if count < rest.len() {
                assert(rest[count] == all[cursor as int]);
            }
            run_goes_on(rest, timestamp_ms, count);
            apply_in_parts(before, rest, count);
            assert(rest.skip(count) =~= all.skip(cursor as int));
        }

        let visible_after = visible_text(active);
        if same_text(&visible_before, &visible_after) {
            suppressed = suppressed + 1;
            continue ;
        }
        let text: String = match visible_after {
            Some(text) => text,
            None => String::new(),
        };
        assert(text@ == shown_text(display(*active)));
        if text.as_str().is_empty() {
            clears = clears + 1;
        } else {
            shows = shows + 1;
        }
        let body = script_data_body(name, text.as_str(), None);
        let stamp: u32 = if timestamp_ms <= u32::MAX as u64 {
            timestamp_ms as u32
        } else {
            u32::MAX
        };
        let tag = script_data_tag(stamp, body.as_slice());
        proof {
            let change = Change { timestamp_ms, text: text@ };
            let next = outcome(display(*active), all.skip(cursor as int));
            assert(outcome(before, rest).changes == seq![change] + next.changes);
            assert(done + (seq![change] + next.changes) =~= done.push(change) + next.changes);
            assert(change_tags(done.push(change), name) =~= change_tags(done, name).push(tag@));
            assert(done.push(change).drop_last() =~= done);
            done = done.push(change);
        }
        tags.push(tag);
        assert(tag_bytes(tags@) =~= change_tags(done, name));
    }
    proof {
        assert(all.skip(cursor as int) =~= Seq::empty());
        assert(outcome(start, all).changes =~= done);
    }
    Coalesced { tags, shows, clears, suppressed }
}

/// Nanoseconds in a millisecond.
pub const NANOSECONDS_PER_MILLISECOND: u64 = 1_000_000;

/// The tag timestamp of a running time, in milliseconds from the origin that
/// the muxer rebased its own timestamps against.
pub open spec fn tag_timestamp(running_time: u64, origin: u64) -> u64 {
    let elapsed = if running_time > origin {
        running_time - origin
    } else {
        0
    };
    let milliseconds = elapsed / 1_000_000;
    if milliseconds > flv::MAXIMUM_TIMESTAMP_MS {
        flv::MAXIMUM_TIMESTAMP_MS
    } else {
        milliseconds as u64
    }
}

/// The tag timestamp of a running time, both in nanoseconds.
pub fn tag_timestamp_ms(running_time: u64, origin: u64) -> (timestamp_ms: u64)
    ensures
        timestamp_ms == tag_timestamp(running_time, origin),
        timestamp_ms <= flv::MAXIMUM_TIMESTAMP_MS,
{
    let elapsed: u64 = if running_time > origin {
        running_time - origin
    } else {
        0
    };
    let milliseconds: u64 = elapsed / NANOSECONDS_PER_MILLISECOND;
    if milliseconds > flv::MAXIMUM_TIMESTAMP_MS {
        flv::MAXIMUM_TIMESTAMP_MS
    } else {
        milliseconds
    }
}

/// What becomes of a transition that media has already passed.
#[derive(Clone, Copy, Debug, PartialEq, Eq, Structural)]
pub enum Lateness {
    /// It goes out with its own timestamp.
    Keep,
    /// It goes out at the current media position.
    Clamp,
    /// It is discarded.
    Discard,
}

/// Where a transition stands against the media position.
pub enum Placement {
    Waiting,
    Discarded,
    At(u64),
}

/// Every transition that goes out came from the queue.
pub proof fn due_comes_from_the_queue(
    pending: Seq<Transition>,
    origin: u64,
    position_ms: u64,
    lateness: Lateness,
    at: int,
) -> (source: int)
    requires
        0 <= at < due(pending, origin, position_ms, lateness).len(),
    ensures
        0 <= source < pending.len(),
        due(pending, origin, position_ms, lateness)[at].kind == pending[source].kind,
        due(pending, origin, position_ms, lateness)[at].sequence == pending[source].sequence,
        placement(pending[source], origin, position_ms, lateness) == Placement::At(
            due(pending, origin, position_ms, lateness)[at].timestamp_ms,
        ),
{
    broadcast use vstd::seq_lib::group_to_multiset_ensures;

    let unordered = due_unordered(pending, origin, position_ms, lateness);
    let ordered = due(pending, origin, position_ms, lateness);
    ordering_orders(unordered, timestamp_key());
    assert(ordered.to_multiset().count(ordered[at]) > 0);
    assert(unordered.contains(ordered[at]));
    let k = choose|k: int| 0 <= k < unordered.len() && unordered[k] == ordered[at];
    let keep = |transition: Transition|
        placement(transition, origin, position_ms, lateness) is At;
    let positions = filter_positions(pending, keep);
    assert(pending.filter(keep)[k] == pending[positions[k]]);
    positions[k]
}

/// Where a transition stands when media is at `position_ms`.
pub open spec fn placement(
    transition: Transition,
    origin: u64,
    position_ms: u64,
    lateness: Lateness,
) -> Placement {
    let own = tag_timestamp(transition.running_time, origin);
    if own > position_ms {
        Placement::Waiting
    } else if own == position_ms || lateness == Lateness::Keep {
        Placement::At(own)
    } else if lateness == Lateness::Clamp {
        Placement::At(position_ms)
    } else {
        Placement::Discarded
    }
}

/// The transitions that media has not reached.
pub open spec fn waiting(pending: Seq<Transition>, origin: u64, position_ms: u64) -> Seq<
    Transition,
> {
    pending.filter(
        |transition: Transition| tag_timestamp(transition.running_time, origin) > position_ms,
    )
}

/// What is left waiting is no more than what was queued.
pub proof fn waiting_is_no_longer(pending: Seq<Transition>, origin: u64, position_ms: u64)
    ensures
        waiting(pending, origin, position_ms).len() <= pending.len(),
{
    pending.lemma_filter_len(
        |transition: Transition| tag_timestamp(transition.running_time, origin) > position_ms,
    );
}

/// How many transitions media has passed.
pub open spec fn late_count(pending: Seq<Transition>, origin: u64, position_ms: u64) -> nat {
    pending.filter(
        |transition: Transition| tag_timestamp(transition.running_time, origin) < position_ms,
    ).len()
}

/// The transitions that media has reached and that go out, in queue order.
pub open spec fn due_unordered(
    pending: Seq<Transition>,
    origin: u64,
    position_ms: u64,
    lateness: Lateness,
) -> Seq<Reached> {
    pending.filter(
        |transition: Transition|
            placement(transition, origin, position_ms, lateness) is At,
    ).map_values(
        |transition: Transition|
            Reached {
                timestamp_ms: placement(transition, origin, position_ms, lateness)->At_0,
                sequence: transition.sequence,
                kind: transition.kind,
            },
    )
}

/// The transitions that media has reached and that go out, in the order in
/// which they apply.
pub open spec fn due(
    pending: Seq<Transition>,
    origin: u64,
    position_ms: u64,
    lateness: Lateness,
) -> Seq<Reached> {
    in_order(due_unordered(pending, origin, position_ms, lateness), timestamp_key())
}

/// Transitions taken from the queue because media reached them.
#[derive(Debug)]
pub struct Due {
    pub reached: Vec<ReachedTransition>,
    pub late: u64,
}

/// Takes the transitions that media has reached out of the queue.
pub fn take_due(
    pending: &mut Vec<PendingTransition>,
    origin: u64,
    position_ms: u64,
    lateness: Lateness,
) -> (result: Due)
    ensures
        transitions(final(pending)@) == waiting(transitions(old(pending)@), origin, position_ms),
        reached_view(result.reached@) == due(
            transitions(old(pending)@),
            origin,
            position_ms,
            lateness,
        ),
        result.late == late_count(transitions(old(pending)@), origin, position_ms),
        result.reached@.len() <= old(pending)@.len(),
        result.late <= old(pending)@.len(),
{
    broadcast use vstd::seq_lib::group_filter_ensures;

    let ghost queue = transitions(pending@);
    let mut taken: Vec<PendingTransition> = Vec::new();
    core::mem::swap(&mut taken, pending);
    let ghost whole = taken@;
    let count: usize = taken.len();
    let mut reached: Vec<ReachedTransition> = Vec::new();
    let mut late: u64 = 0;
    for transition in it: taken
        invariant
            it.seq() == whole,
            whole.len() == count,
            queue == transitions(whole),
            transitions(pending@) == waiting(queue.take(it.index() as int), origin, position_ms),
            reached_view(reached@) == due(
                queue.take(it.index() as int),
                origin,
                position_ms,
                lateness,
            ),
            late == late_count(queue.take(it.index() as int), origin, position_ms),
            late <= it.index(),
            reached@.len() <= it.index(),
    {
        let ghost at = it.index() as int;
        proof {
            taking_one_more(queue, at, origin, position_ms, lateness);
            assert(queue[at] == transition@);
        }
        let own: u64 = tag_timestamp_ms(transition.running_time, origin);
        if own > position_ms {
            pending.push(transition);
            assert(transitions(pending@) =~= waiting(queue.take(at + 1), origin, position_ms));
        } else {
            if own < position_ms {
                late = late + 1;
            }
            let timestamp_ms: Option<u64> = match lateness {
                Lateness::Keep => Some(own),
                Lateness::Clamp => Some(position_ms),
                Lateness::Discard => if own < position_ms {
                    None
                } else {
                    Some(own)
                },
            };
            if let Some(timestamp_ms) = timestamp_ms {
                let item = ReachedTransition {
                    timestamp_ms,
                    sequence: transition.sequence,
                    kind: transition.kind,
                };
                insert_reached(&mut reached, item);
            }
        }
    }
    assert(queue.take(queue.len() as int) =~= queue);
    Due { reached, late }
}

/// What one more transition in the queue adds.
proof fn taking_one_more(
    queue: Seq<Transition>,
    at: int,
    origin: u64,
    position_ms: u64,
    lateness: Lateness,
)
    requires
        0 <= at < queue.len(),
    ensures
        ({
            let (before, after) = (queue.take(at), queue.take(at + 1));
            let own = tag_timestamp(queue[at].running_time, origin);
            &&& waiting(after, origin, position_ms) == if own > position_ms {
                waiting(before, origin, position_ms).push(queue[at])
            } else {
                waiting(before, origin, position_ms)
            }
            &&& late_count(after, origin, position_ms) == late_count(before, origin, position_ms)
                + if own < position_ms {
                1nat
            } else {
                0nat
            }
            &&& due(after, origin, position_ms, lateness) == match placement(
                queue[at],
                origin,
                position_ms,
                lateness,
            ) {
                Placement::At(timestamp_ms) => insert_ordered(
                    due(before, origin, position_ms, lateness),
                    timestamp_key(),
                    Reached { timestamp_ms, sequence: queue[at].sequence, kind: queue[at].kind },
                ),
                _ => due(before, origin, position_ms, lateness),
            }
        }),
{
    reveal(Seq::filter);
    let (before, after) = (queue.take(at), queue.take(at + 1));
    assert(after.drop_last() =~= before);
    assert(after.last() == queue[at]);
    let old_due = due_unordered(before, origin, position_ms, lateness);
    let new_due = due_unordered(after, origin, position_ms, lateness);
    match placement(queue[at], origin, position_ms, lateness) {
        Placement::At(timestamp_ms) => {
            let item = Reached {
                timestamp_ms,
                sequence: queue[at].sequence,
                kind: queue[at].kind,
            };
            assert(new_due =~= old_due.push(item));
            assert(new_due.drop_last() =~= old_due);
        },
        _ => {
            assert(new_due =~= old_due);
        },
    }
}

/// A run consists of transitions that share its timestamp, and in ordered
/// transitions everything behind the run has a later one.
proof fn run_splits_by_timestamp(reached: Seq<Reached>, timestamp_ms: u64)
    requires
        is_ordered(reached, timestamp_key()),
        reached.len() > 0 ==> reached[0].timestamp_ms >= timestamp_ms,
    ensures
        forall|i: int|
            0 <= i < run_length(reached, timestamp_ms) ==> (#[trigger] reached[i]).timestamp_ms
                == timestamp_ms,
        forall|i: int|
            run_length(reached, timestamp_ms) <= i < reached.len() ==> (
            #[trigger] reached[i]).timestamp_ms > timestamp_ms,
    decreases reached.len(),
{
    if reached.len() > 0 {
        let rest = reached.drop_first();
        ordered_tail(reached, timestamp_key(), 1);
        assert(reached.skip(1) =~= rest);
        if reached[0].timestamp_ms == timestamp_ms {
            if rest.len() > 0 {
                assert(key_le(timestamp_key()(reached[0]), timestamp_key()(reached[1])));
            }
            run_splits_by_timestamp(rest, timestamp_ms);
            run_is_bounded(rest, timestamp_ms);
            assert forall|i: int| 0 <= i < run_length(reached, timestamp_ms) implies (
            #[trigger] reached[i]).timestamp_ms == timestamp_ms by {
                if i > 0 {
                    assert(rest[i - 1] == reached[i]);
                }
            }
            assert forall|i: int|
                run_length(reached, timestamp_ms) <= i < reached.len() implies (
            #[trigger] reached[i]).timestamp_ms > timestamp_ms by {
                assert(rest[i - 1] == reached[i]);
            }
        } else {
            assert forall|i: int| 0 <= i < reached.len() implies (
            #[trigger] reached[i]).timestamp_ms > timestamp_ms by {
                assert(key_le(timestamp_key()(reached[0]), timestamp_key()(reached[i])));
            }
        }
    }
}

/// What stands behind some of the ordered items is ordered too.
proof fn ordered_tail<T>(items: Seq<T>, key: spec_fn(T) -> (int, int), count: int)
    requires
        is_ordered(items, key),
        0 <= count <= items.len(),
    ensures
        is_ordered(items.skip(count), key),
{
    let tail = items.skip(count);
    assert forall|i: int, j: int| 0 <= i <= j < tail.len() implies key_le(
        key(#[trigger] tail[i]),
        key(#[trigger] tail[j]),
    ) by {
        assert(tail[i] == items[i + count] && tail[j] == items[j + count]);
    }
}

/// Tags never go back in time: each change has a later timestamp than the one
/// before it, and every timestamp is that of a transition. So transitions that
/// share a timestamp make one change at most.
pub proof fn changes_move_forward(active: Option<Active>, reached: Seq<Reached>)
    requires
        is_ordered(reached, timestamp_key()),
    ensures
        ({
            let changes = outcome(active, reached).changes;
            &&& forall|i: int, j: int|
                0 <= i < j < changes.len() ==> (#[trigger] changes[i]).timestamp_ms < (
                #[trigger] changes[j]).timestamp_ms
            &&& forall|i: int|
                0 <= i < changes.len() ==> exists|k: int|
                    0 <= k < reached.len() && (#[trigger] reached[k]).timestamp_ms == (
                    #[trigger] changes[i]).timestamp_ms
        }),
    decreases reached.len(),
{
    if reached.len() > 0 {
        let timestamp_ms = reached[0].timestamp_ms;
        let count = run_length(reached, timestamp_ms) as int;
        run_is_bounded(reached, timestamp_ms);
        run_splits_by_timestamp(reached, timestamp_ms);
        ordered_tail(reached, timestamp_key(), count);
        let next = apply_all(active, reached.take(count));
        let rest = reached.skip(count);
        changes_move_forward(next, rest);
        let later = outcome(next, rest).changes;
        let changes = outcome(active, reached).changes;
        assert forall|i: int| 0 <= i < later.len() implies (
        #[trigger] later[i]).timestamp_ms > timestamp_ms && exists|k: int|
            0 <= k < reached.len() && (#[trigger] reached[k]).timestamp_ms
                == later[i].timestamp_ms by {
            let k = choose|k: int|
                0 <= k < rest.len() && (#[trigger] rest[k]).timestamp_ms == later[i].timestamp_ms;
            assert(rest[k] == reached[k + count]);
        }
        if visible(active) != visible(next) {
            assert forall|i: int| 0 <= i < changes.len() implies exists|k: int|
                0 <= k < reached.len() && (#[trigger] reached[k]).timestamp_ms == (
                #[trigger] changes[i]).timestamp_ms by {
                if i == 0 {
                    assert(reached[0].timestamp_ms == changes[0].timestamp_ms);
                } else {
                    assert(changes[i] == later[i - 1]);
                }
            }
            assert forall|i: int, j: int| 0 <= i < j < changes.len() implies (
            #[trigger] changes[i]).timestamp_ms < (#[trigger] changes[j]).timestamp_ms by {
                assert(changes[j] == later[j - 1]);
                if i > 0 {
                    assert(changes[i] == later[i - 1]);
                }
            }
        }
    }
}

/// Identical states are suppressed: the first change differs from what is on
/// display, and every later one from the change before it.
pub proof fn changes_differ_from_what_is_shown(active: Option<Active>, reached: Seq<Reached>)
    requires
        active matches Some(state) ==> state.text.len() > 0,
        forall|i: int|
            0 <= i < reached.len() ==> ((#[trigger] reached[i]).kind matches Kind::Show {
                text,
                ..
            } ==> text.len() > 0),
    ensures
        ({
            let changes = outcome(active, reached).changes;
            &&& changes.len() > 0 ==> changes[0].text != shown_text(active)
            &&& forall|i: int|
                0 < i < changes.len() ==> (#[trigger] changes[i]).text != changes[i - 1].text
            &&& shown_text(apply_all(active, reached)) == if changes.len() > 0 {
                changes.last().text
            } else {
                shown_text(active)
            }
        }),
    decreases reached.len(),
{
    if reached.len() > 0 {
        let timestamp_ms = reached[0].timestamp_ms;
        let count = run_length(reached, timestamp_ms) as int;
        run_is_bounded(reached, timestamp_ms);
        let run = reached.take(count);
        let next = apply_all(active, run);
        let rest = reached.skip(count);
        assert forall|i: int| 0 <= i < run.len() implies ((
        #[trigger] run[i]).kind matches Kind::Show { text, .. } ==> text.len() > 0) by {
            assert(run[i] == reached[i]);
        }
        shown_text_is_not_empty(active, run);
        assert forall|i: int| 0 <= i < rest.len() implies ((
        #[trigger] rest[i]).kind matches Kind::Show { text, .. } ==> text.len() > 0) by {
            assert(rest[i] == reached[i + count]);
        }
        changes_differ_from_what_is_shown(next, rest);
        apply_in_parts(active, reached, count);
        let later = outcome(next, rest).changes;
        let changes = outcome(active, reached).changes;
        if visible(active) != visible(next) {
            assert(changes[0].text != shown_text(active)) by {
                if shown_text(active).len() == 0 {
                    assert(active is None);
                }
                if shown_text(next).len() == 0 {
                    assert(next is None);
                }
            }
            assert forall|i: int| 0 < i < changes.len() implies (#[trigger] changes[i]).text
                != changes[i - 1].text by {
                assert(changes[i] == later[i - 1]);
                if i > 1 {
                    assert(changes[i - 1] == later[i - 2]);
                }
            }
            if later.len() > 0 {
                assert(changes.last() == later.last());
            }
        } else {
            assert(shown_text(active) == shown_text(next));
        }
    }
}

/// Text on display is never empty where only text is shown.
proof fn shown_text_is_not_empty(active: Option<Active>, reached: Seq<Reached>)
    requires
        active matches Some(state) ==> state.text.len() > 0,
        forall|i: int|
            0 <= i < reached.len() ==> ((#[trigger] reached[i]).kind matches Kind::Show {
                text,
                ..
            } ==> text.len() > 0),
    ensures
        apply_all(active, reached) matches Some(state) ==> state.text.len() > 0,
    decreases reached.len(),
{
    if reached.len() > 0 {
        let rest = reached.drop_first();
        assert forall|i: int| 0 <= i < rest.len() implies ((
        #[trigger] rest[i]).kind matches Kind::Show { text, .. } ==> text.len() > 0) by {
            assert(rest[i] == reached[i + 1]);
        }
        assert(reached[0].kind matches Kind::Show { text, .. } ==> text.len() > 0);
        shown_text_is_not_empty(apply(active, reached[0].kind), rest);
    }
}

/// An older cue's clear never ends a newer cue: once a cue shows, clears that
/// belong to other cues leave it on display.
pub proof fn clears_of_other_cues_leave_a_cue_alone(
    active: Option<Active>,
    reached: Seq<Reached>,
    at: int,
)
    requires
        0 <= at < reached.len(),
        reached[at].kind is Show,
        forall|i: int|
            at < i < reached.len() ==> ((#[trigger] reached[i]).kind matches Kind::Clear {
                owner: Some(generation),
            } && generation != reached[at].kind->Show_generation),
    ensures
        apply_all(active, reached) == Some(
            (Active {
                generation: reached[at].kind->Show_generation,
                text: reached[at].kind->text,
            }),
        ),
    decreases reached.len(),
{
    let rest = reached.drop_first();
    if at > 0 {
        assert(rest[at - 1] == reached[at]);
        assert forall|i: int| at - 1 < i < rest.len() implies ((
        #[trigger] rest[i]).kind matches Kind::Clear { owner: Some(generation) } && generation
            != rest[at - 1].kind->Show_generation) by {
            assert(rest[i] == reached[i + 1]);
        }
        clears_of_other_cues_leave_a_cue_alone(apply(active, reached[0].kind), rest, at - 1);
    } else {
        let shown = apply(active, reached[0].kind);
        assert forall|i: int| 0 <= i < rest.len() implies ((
        #[trigger] rest[i]).kind matches Kind::Clear { owner: Some(generation) } && generation
            != shown->0.generation) by {
            assert(rest[i] == reached[i + 1]);
        }
        other_clears_change_nothing(shown, rest);
    }
}

proof fn other_clears_change_nothing(active: Option<Active>, reached: Seq<Reached>)
    requires
        active is Some,
        forall|i: int|
            0 <= i < reached.len() ==> ((#[trigger] reached[i]).kind matches Kind::Clear {
                owner: Some(generation),
            } && generation != active->0.generation),
    ensures
        apply_all(active, reached) == active,
    decreases reached.len(),
{
    if reached.len() > 0 {
        let rest = reached.drop_first();
        assert(reached[0].kind matches Kind::Clear { owner: Some(generation) } && generation
            != active->0.generation);
        assert forall|i: int| 0 <= i < rest.len() implies ((
        #[trigger] rest[i]).kind matches Kind::Clear { owner: Some(generation) } && generation
            != active->0.generation) by {
            assert(rest[i] == reached[i + 1]);
        }
        other_clears_change_nothing(active, rest);
    }
}

/// An item that comes after all of the front part goes into the back part.
proof fn insert_behind_a_front<T>(
    front: Seq<T>,
    back: Seq<T>,
    key: spec_fn(T) -> (int, int),
    item: T,
)
    requires
        forall|i: int| 0 <= i < front.len() ==> key_le(key(#[trigger] front[i]), key(item)),
    ensures
        insert_ordered(front + back, key, item) == front + insert_ordered(back, key, item),
    decreases back.len(),
{
    let whole = front + back;
    if back.len() == 0 {
        assert(whole =~= front);
        assert(front + back.push(item) =~= front.push(item));
        if front.len() > 0 {
            assert(key_le(key(front[front.len() - 1]), key(item)));
        }
    } else {
        assert(whole.last() == back.last());
        if key_le(key(back.last()), key(item)) {
            assert(whole.push(item) =~= front + back.push(item));
        } else {
            insert_behind_a_front(front, back.drop_last(), key, item);
            assert(whole.drop_last() =~= front + back.drop_last());
            assert((front + insert_ordered(back.drop_last(), key, item)).push(back.last())
                =~= front + insert_ordered(back.drop_last(), key, item).push(back.last()));
        }
    }
}

/// An item that comes before all of the back part goes into the front part.
proof fn insert_before_a_back<T>(
    front: Seq<T>,
    back: Seq<T>,
    key: spec_fn(T) -> (int, int),
    item: T,
)
    requires
        forall|i: int| 0 <= i < back.len() ==> !key_le(key(#[trigger] back[i]), key(item)),
    ensures
        insert_ordered(front + back, key, item) == insert_ordered(front, key, item) + back,
    decreases back.len(),
{
    let whole = front + back;
    if back.len() == 0 {
        assert(whole =~= front);
        assert(insert_ordered(front, key, item) + back =~= insert_ordered(front, key, item));
    } else {
        assert(whole.last() == back[back.len() - 1]);
        let shorter = back.drop_last();
        assert forall|i: int| 0 <= i < shorter.len() implies !key_le(
            key(#[trigger] shorter[i]),
            key(item),
        ) by {
            assert(shorter[i] == back[i]);
        }
        insert_before_a_back(front, shorter, key, item);
        assert(whole.drop_last() =~= front + shorter);
        assert((insert_ordered(front, key, item) + shorter).push(back.last()) =~= insert_ordered(
            front,
            key,
            item,
        ) + back);
    }
}

/// What is due at a position is what was due at an earlier one, followed by
/// what became due in between.
pub proof fn due_accumulates(pending: Seq<Transition>, origin: u64, earlier: u64, later: u64)
    requires
        earlier <= later,
    ensures
        waiting(waiting(pending, origin, earlier), origin, later) == waiting(
            pending,
            origin,
            later,
        ),
        due(pending, origin, later, Lateness::Keep) == due(
            pending,
            origin,
            earlier,
            Lateness::Keep,
        ) + due(waiting(pending, origin, earlier), origin, later, Lateness::Keep),
        forall|i: int|
            0 <= i < due(pending, origin, earlier, Lateness::Keep).len() ==> (#[trigger] due(
                pending,
                origin,
                earlier,
                Lateness::Keep,
            )[i]).timestamp_ms <= earlier,
        forall|i: int|
            0 <= i < due(
                waiting(pending, origin, earlier),
                origin,
                later,
                Lateness::Keep,
            ).len() ==> (#[trigger] due(
                waiting(pending, origin, earlier),
                origin,
                later,
                Lateness::Keep,
            )[i]).timestamp_ms > earlier,
    decreases pending.len(),
{
    reveal(Seq::filter);
    let keep = Lateness::Keep;
    let front = due(pending, origin, earlier, keep);
    let left = waiting(pending, origin, earlier);
    let back = due(left, origin, later, keep);
    due_is_reached(pending, origin, earlier);
    due_is_behind(pending, origin, earlier, later);
    if pending.len() == 0 {
        assert(front + back =~= due(pending, origin, later, keep));
    } else {
        let shorter = pending.drop_last();
        let item = pending.last();
        let own = tag_timestamp(item.running_time, origin);
        due_accumulates(shorter, origin, earlier, later);
        let old_front = due(shorter, origin, earlier, keep);
        let old_left = waiting(shorter, origin, earlier);
        let old_back = due(old_left, origin, later, keep);
        let entry = Reached { timestamp_ms: own, sequence: item.sequence, kind: item.kind };
        assert(pending.take(pending.len() - 1) =~= shorter);
        assert(pending.take(pending.len() as int) =~= pending);
        taking_one_more(pending, pending.len() - 1, origin, earlier, keep);
        taking_one_more(pending, pending.len() - 1, origin, later, keep);
        if own <= earlier {
            assert(left =~= old_left);
            assert forall|i: int| 0 <= i < old_back.len() implies !key_le(
                timestamp_key()(#[trigger] old_back[i]),
                timestamp_key()(entry),
            ) by {}
            insert_before_a_back(old_front, old_back, timestamp_key(), entry);
        } else {
            assert(left =~= old_left.push(item));
            assert(left.take(left.len() - 1) =~= old_left);
            assert(left.take(left.len() as int) =~= left);
            taking_one_more(left, left.len() - 1, origin, later, keep);
            if own <= later {
                assert forall|i: int| 0 <= i < old_front.len() implies key_le(
                    timestamp_key()(#[trigger] old_front[i]),
                    timestamp_key()(entry),
                ) by {}
                insert_behind_a_front(old_front, old_back, timestamp_key(), entry);
            }
        }
    }
}

/// What is due has been reached.
proof fn due_is_reached(pending: Seq<Transition>, origin: u64, position_ms: u64)
    ensures
        forall|i: int|
            0 <= i < due(pending, origin, position_ms, Lateness::Keep).len() ==> (#[trigger] due(
                pending,
                origin,
                position_ms,
                Lateness::Keep,
            )[i]).timestamp_ms <= position_ms,
{
    let reached = due(pending, origin, position_ms, Lateness::Keep);
    assert forall|i: int| 0 <= i < reached.len() implies (#[trigger] reached[i]).timestamp_ms
        <= position_ms by {
        let source = due_comes_from_the_queue(pending, origin, position_ms, Lateness::Keep, i);
    }
}

/// What becomes due later lies behind the earlier position.
proof fn due_is_behind(pending: Seq<Transition>, origin: u64, earlier: u64, later: u64)
    ensures
        forall|i: int|
            0 <= i < due(
                waiting(pending, origin, earlier),
                origin,
                later,
                Lateness::Keep,
            ).len() ==> (#[trigger] due(
                waiting(pending, origin, earlier),
                origin,
                later,
                Lateness::Keep,
            )[i]).timestamp_ms > earlier,
{
    let left = waiting(pending, origin, earlier);
    let reached = due(left, origin, later, Lateness::Keep);
    assert forall|i: int| 0 <= i < reached.len() implies (#[trigger] reached[i]).timestamp_ms
        > earlier by {
        let source = due_comes_from_the_queue(left, origin, later, Lateness::Keep, i);
        let keep = |transition: Transition|
            tag_timestamp(transition.running_time, origin) > earlier;
        let positions = filter_positions(pending, keep);
        assert(left[source] == pending[positions[source]]);
    }
}

/// Changes that transitions make at earlier timestamps are not touched by
/// transitions at later ones.
pub proof fn outcomes_concatenate(active: Option<Active>, front: Seq<Reached>, back: Seq<Reached>)
    requires
        forall|i: int, j: int|
            0 <= i < front.len() && 0 <= j < back.len() ==> (#[trigger] front[i]).timestamp_ms < (
            #[trigger] back[j]).timestamp_ms,
    ensures
        ({
            let first = outcome(active, front);
            let second = outcome(apply_all(active, front), back);
            &&& outcome(active, front + back).changes == first.changes + second.changes
            &&& outcome(active, front + back).suppressed == first.suppressed + second.suppressed
            &&& apply_all(active, front + back) == apply_all(apply_all(active, front), back)
        }),
    decreases front.len(),
{
    let whole = front + back;
    let second = outcome(apply_all(active, front), back);
    apply_in_parts(active, whole, front.len() as int);
    assert(whole.take(front.len() as int) =~= front);
    assert(whole.skip(front.len() as int) =~= back);
    if front.len() == 0 {
        assert(whole =~= back);
        assert(outcome(active, front).changes + second.changes =~= second.changes);
    } else {
        let timestamp_ms = front[0].timestamp_ms;
        let count = run_length(front, timestamp_ms) as int;
        run_is_bounded(front, timestamp_ms);
        run_within_front(front, back, timestamp_ms);
        assert(whole[0] == front[0]);
        assert(whole.take(count) =~= front.take(count));
        assert(whole.skip(count) =~= front.skip(count) + back);
        let rest = front.skip(count);
        let next = apply_all(active, front.take(count));
        assert forall|i: int, j: int| 0 <= i < rest.len() && 0 <= j < back.len() implies (
        #[trigger] rest[i]).timestamp_ms < (#[trigger] back[j]).timestamp_ms by {
            assert(rest[i] == front[i + count]);
        }
        outcomes_concatenate(next, rest, back);
        apply_in_parts(active, front, count);
        let change = Change { timestamp_ms, text: shown_text(next) };
        assert(seq![change] + (outcome(next, rest).changes + second.changes) =~= seq![change]
            + outcome(next, rest).changes + second.changes);
    }
}

/// A run that ends inside the front part is not affected by what follows.
proof fn run_within_front(front: Seq<Reached>, back: Seq<Reached>, timestamp_ms: u64)
    requires
        back.len() > 0 ==> back[0].timestamp_ms != timestamp_ms,
    ensures
        run_length(front + back, timestamp_ms) == run_length(front, timestamp_ms),
    decreases front.len(),
{
    if front.len() == 0 {
        assert(front + back =~= back);
    } else {
        assert((front + back).drop_first() =~= front.drop_first() + back);
        run_within_front(front.drop_first(), back, timestamp_ms);
    }
}

/// What a transition does, whatever is on display: a show replaces it, an explicit
/// clear empties it, and a clear that belongs to a cue empties it exactly where that
/// cue is what is shown, and leaves it alone otherwise.
pub proof fn transitions_set_the_display(
    active: Option<Active>,
    generation: u64,
    text: Seq<char>,
)
    ensures
        apply(active, Kind::Show { generation, text }) == Some(Active { generation, text }),
        apply(active, Kind::Clear { owner: None }) is None,
        active is Some && active->0.generation == generation ==> apply(
            active,
            Kind::Clear { owner: Some(generation) },
        ) is None,
        active is Some && active->0.generation != generation ==> apply(
            active,
            Kind::Clear { owner: Some(generation) },
        ) == active,
        active is None ==> apply(active, Kind::Clear { owner: Some(generation) }) is None,
{
}

/// Transitions apply one after another, each to what the ones before it left.
pub proof fn transitions_apply_one_after_another(
    active: Option<Active>,
    reached: Seq<Reached>,
    more: Reached,
)
    ensures
        apply_all(active, Seq::empty()) == active,
        apply_all(active, reached.push(more)) == apply(apply_all(active, reached), more.kind),
{
    apply_one_more(active, reached, more);
}

/// An explicit clear empties the display for good, until something is shown: with
/// no show behind it, nothing is on display in the end, whatever was before.
pub proof fn an_explicit_clear_empties_the_display(
    active: Option<Active>,
    reached: Seq<Reached>,
    at: int,
)
    requires
        0 <= at < reached.len(),
        reached[at].kind == (Kind::Clear { owner: None }),
        forall|i: int| at < i < reached.len() ==> (#[trigger] reached[i]).kind is Clear,
    ensures
        apply_all(active, reached) is None,
    decreases reached.len(),
{
    let front = reached.drop_last();
    assert(front.push(reached.last()) =~= reached);
    apply_one_more(active, front, reached.last());
    if at < front.len() {
        assert forall|i: int| at < i < front.len() implies (#[trigger] front[i]).kind is Clear by {
            assert(front[i] == reached[i]);
        }
        an_explicit_clear_empties_the_display(active, front, at);
    }
}

/// What happens at one instant makes one change at most: none where the same text,
/// or none, is on display afterwards as before, and else one, at that instant, with
/// the text that is on display then, or with none where nothing is.
pub proof fn one_instant_makes_one_change(
    active: Option<Active>,
    reached: Seq<Reached>,
    timestamp_ms: u64,
)
    requires
        reached.len() > 0,
        forall|i: int| 0 <= i < reached.len() ==> (#[trigger] reached[i]).timestamp_ms
            == timestamp_ms,
    ensures
        ({
            let after = apply_all(active, reached);
            let result = outcome(active, reached);
            let same = (active is None && after is None) || (active is Some && after is Some
                && active->0.text == after->0.text);
            &&& same ==> result.changes == Seq::<Change>::empty() && result.suppressed == 1
            &&& !same ==> result.suppressed == 0 && result.changes.len() == 1
                && result.changes[0].timestamp_ms == timestamp_ms && result.changes[0].text == (
            if after is Some {
                after->0.text
            } else {
                Seq::empty()
            })
        }),
{
    run_goes_on(reached, timestamp_ms, reached.len() as int);
    let count = reached.len() as int;
    assert(reached.take(count) =~= reached);
    assert(reached.skip(count) =~= Seq::empty());
    let rest = outcome(apply_all(active, reached), reached.skip(count));
    assert(rest.changes =~= Seq::empty());
}

/// One more transition in the queue waits while media has not reached its tag
/// timestamp. Once media has, it goes out: at its own timestamp where that is kept or
/// is the media's, at the media's where a late one is clamped, and not at all where a
/// late one is discarded. It counts as late where media has passed it. What is
/// decided about the rest of the queue stays.
pub proof fn one_more_in_the_queue(
    pending: Seq<Transition>,
    more: Transition,
    origin: u64,
    position_ms: u64,
    lateness: Lateness,
)
    ensures
        ({
            let own = tag_timestamp(more.running_time, origin);
            let longer = pending.push(more);
            let due_before = due_unordered(pending, origin, position_ms, lateness);
            let due_after = due_unordered(longer, origin, position_ms, lateness);
            let waiting_before = waiting(pending, origin, position_ms);
            let waiting_after = waiting(longer, origin, position_ms);
            let late_before = late_count(pending, origin, position_ms);
            let late_after = late_count(longer, origin, position_ms);
            &&& own > position_ms ==> waiting_after == waiting_before.push(more) && due_after
                == due_before && late_after == late_before
            &&& own == position_ms ==> waiting_after == waiting_before && due_after
                == due_before.push(
                Reached { timestamp_ms: own, sequence: more.sequence, kind: more.kind },
            ) && late_after == late_before
            &&& own < position_ms ==> waiting_after == waiting_before && late_after == late_before
                + 1
            &&& own < position_ms && lateness == Lateness::Keep ==> due_after == due_before.push(
                Reached { timestamp_ms: own, sequence: more.sequence, kind: more.kind },
            )
            &&& own < position_ms && lateness == Lateness::Clamp ==> due_after == due_before.push(
                Reached { timestamp_ms: position_ms, sequence: more.sequence, kind: more.kind },
            )
            &&& own < position_ms && lateness == Lateness::Discard ==> due_after == due_before
        }),
{
    reveal(Seq::filter);
    let longer = pending.push(more);
    assert(longer.drop_last() =~= pending);
    let due_before = due_unordered(pending, origin, position_ms, lateness);
    let due_after = due_unordered(longer, origin, position_ms, lateness);
    match placement(more, origin, position_ms, lateness) {
        Placement::At(timestamp_ms) => {
            assert(due_after =~= due_before.push(
                Reached { timestamp_ms, sequence: more.sequence, kind: more.kind },
            ));
        },
        _ => {
            assert(due_after =~= due_before);
        },
    }
}

/// What is due goes out by tag timestamp, and by arrival where two share one; nothing
/// is added and nothing lost by ordering it.
pub proof fn what_is_due_goes_out_in_order(
    pending: Seq<Transition>,
    origin: u64,
    position_ms: u64,
    lateness: Lateness,
)
    ensures
        ({
            let all = due(pending, origin, position_ms, lateness);
            &&& all.to_multiset() == due_unordered(
                pending,
                origin,
                position_ms,
                lateness,
            ).to_multiset()
            &&& forall|i: int, j: int|
                0 <= i < j < all.len() ==> (#[trigger] all[i]).timestamp_ms < (
                #[trigger] all[j]).timestamp_ms || (all[i].timestamp_ms == all[j].timestamp_ms
                    && all[i].sequence <= all[j].sequence)
        }),
{
    let found = due_unordered(pending, origin, position_ms, lateness);
    ordering_orders(found, timestamp_key());
    assert forall|i: int, j: int|
        0 <= i < j < due(pending, origin, position_ms, lateness).len() implies (#[trigger] due(
        pending,
        origin,
        position_ms,
        lateness,
    )[i]).timestamp_ms < (#[trigger] due(pending, origin, position_ms, lateness)[j]).timestamp_ms
        || (due(pending, origin, position_ms, lateness)[i].timestamp_ms == due(
        pending,
        origin,
        position_ms,
        lateness,
    )[j].timestamp_ms && due(pending, origin, position_ms, lateness)[i].sequence <= due(
        pending,
        origin,
        position_ms,
        lateness,
    )[j].sequence) by {
        let all = due(pending, origin, position_ms, lateness);
        assert(key_le(timestamp_key()(all[i]), timestamp_key()(all[j])));
    }
}

/// The queue is kept by media time, and by arrival where two share one.
pub proof fn the_queue_is_kept_by_time_and_arrival(pending: Seq<Transition>, i: int, j: int)
    requires
        is_ordered(pending, time_key()),
        0 <= i < j < pending.len(),
    ensures
        pending[i].running_time < pending[j].running_time || (pending[i].running_time
            == pending[j].running_time && pending[i].sequence <= pending[j].sequence),
{
    assert(key_le(time_key()(pending[i]), time_key()(pending[j])));
}

/// A tag timestamp is the time since the origin in whole milliseconds, and zero up to
/// the origin; it never goes beyond what a tag can say, and never falls as time goes
/// on.
pub proof fn tag_timestamps_count_milliseconds(running_time: u64, later: u64, origin: u64)
    requires
        running_time <= later,
    ensures
        running_time <= origin ==> tag_timestamp(running_time, origin) == 0,
        origin <= running_time && running_time - origin < 0x8000_0000 * 1_000_000 ==> {
            let ms = tag_timestamp(running_time, origin);
            ms * 1_000_000 <= running_time - origin < (ms + 1) * 1_000_000
        },
        running_time - origin >= 0x8000_0000 * 1_000_000 ==> tag_timestamp(running_time, origin)
            == 0x7fff_ffff,
        tag_timestamp(running_time, origin) <= tag_timestamp(later, origin),
{
}

/// A change goes out as one whole script-data tag at its timestamp, and a reader finds
/// its text in it: the text itself where a short string can hold it, else the longest
/// front part of it that one can. A clear is found as empty text.
pub proof fn a_change_is_read_back_from_its_tag(change: Change, name: MessageName)
    requires
        change.timestamp_ms <= u32::MAX,
    ensures
        ({
            let tag = change_tag(change, name);
            let body = tag.subrange(11, tag.len() - 4);
            &&& flv::is_one_tag(tag)
            &&& flv::tag_header(tag) is Some
            &&& flv::tag_header(tag)->0.tag_type == 18
            &&& flv::tag_header(tag)->0.timestamp_ms == change.timestamp_ms
            &&& body == amf::message_body(name, change.text, None)
            &&& amf::text_property(body) is Some
            &&& vstd::utf8::encode_utf8(change.text).len() <= 0xffff ==> amf::text_property(body)->0
                == vstd::utf8::encode_utf8(change.text)
            &&& amf::text_property(body)->0.len() == 0 <==> change.text.len() == 0
        }),
{
    let body = amf::message_body(name, change.text, None);
    amf::a_message_is_short(name, change.text, None);
    a_body_is_found_in_its_tag(change.timestamp_ms as u32, body);
    amf::the_text_property_round_trips(name, change.text, None);
    empty_text_is_all_that_is_cut_to_nothing(change.text);
}

proof fn a_body_is_found_in_its_tag(stamp: u32, body: Seq<u8>)
    requires
        body.len() < 0x100_0000,
    ensures
        ({
            let tag = flv::script_tag(stamp as int, body);
            &&& flv::is_one_tag(tag)
            &&& flv::tag_header(tag) is Some
            &&& flv::tag_header(tag)->0.tag_type == 18
            &&& flv::tag_header(tag)->0.timestamp_ms == stamp
            &&& tag.subrange(11, tag.len() - 4) == body
        }),
{
    let tag = flv::script_tag(stamp as int, body);
    flv::a_framed_tag_parses_back(18, stamp, body);
    flv::a_tag_is_header_body_and_size(18, stamp, body);
    assert(tag.subrange(11, tag.len() - 4) =~= body);
}

proof fn empty_text_is_all_that_is_cut_to_nothing(text: Seq<char>)
    ensures
        vstd::utf8::encode_utf8(crate::text::truncated(text, 0xffff)).len() == 0 <==> text.len()
            == 0,
{
    crate::text::truncation_cuts_no_more_than_needed(text, 0xffff);
    let cut = crate::text::truncated(text, 0xffff);
    if text.len() > 0 && cut.len() == 0 {
        one_character_is_short(text.take(1));
    }
}

proof fn one_character_is_short(text: Seq<char>)
    requires
        text.len() == 1,
    ensures
        crate::text::utf8_len(text) <= 4,
{
    reveal_with_fuel(vstd::utf8::encode_utf8, 2);
}

/// Changes go out one tag each, in their order.
pub proof fn changes_go_out_one_tag_each(changes: Seq<Change>, name: MessageName)
    ensures
        change_tags(changes, name).len() == changes.len(),
        forall|i: int|
            0 <= i < changes.len() ==> #[trigger] change_tags(changes, name)[i] == change_tag(
                changes[i],
                name,
            ),
{
}

/// Shows are the changes that carry text: one more change is one more show exactly
/// where it carries some.
pub proof fn shows_carry_text(changes: Seq<Change>, more: Change)
    ensures
        show_count(Seq::empty()) == 0,
        show_count(changes.push(more)) == show_count(changes) + if more.text.len() > 0 {
            1int
        } else {
            0int
        },
{
    assert(changes.push(more).drop_last() =~= changes);
}

/// There are no more changes and suppressed instants than transitions, and no more
/// shows than changes.
pub proof fn outcomes_are_bounded(active: Option<Active>, reached: Seq<Reached>)
    ensures
        ({
            let result = outcome(active, reached);
            &&& result.changes.len() + result.suppressed <= reached.len()
            &&& show_count(result.changes) <= result.changes.len()
        }),
    decreases reached.len(),
{
    if reached.len() > 0 {
        let timestamp_ms = reached[0].timestamp_ms;
        run_is_bounded(reached, timestamp_ms);
        let count = run_length(reached, timestamp_ms) as int;
        outcomes_are_bounded(apply_all(active, reached.take(count)), reached.skip(count));
    }
    shows_are_changes(outcome(active, reached).changes);
}

proof fn shows_are_changes(changes: Seq<Change>)
    ensures
        show_count(changes) <= changes.len(),
    decreases changes.len(),
{
    if changes.len() > 0 {
        shows_are_changes(changes.drop_last());
    }
}


/// Applying a transition: a show puts its own text on display, an explicit clear leaves
/// nothing there, and the end of a cue takes down that cue and no other.
pub proof fn applying_sets_the_display(kind: TransitionKind, active: &mut Option<ActiveState>)
    requires
        call_ensures(TransitionKind::apply_to, (&kind, active), ()),
    ensures
        kind matches TransitionKind::Show { generation, text } ==> (*final(active) matches Some(
            state,
        ) && state.generation == generation && state.text@ == text@),
        kind == (TransitionKind::Clear { owner: None }) ==> *final(active) is None,
        kind matches TransitionKind::Clear { owner: Some(generation) } ==> match *old(active) {
            None => *final(active) is None,
            Some(state) => if state.generation == generation {
                *final(active) is None
            } else {
                *final(active) matches Some(kept) && kept.generation == state.generation
                    && kept.text@ == state.text@
            },
        },
{
}

/// Transitions at one instant go out as at most one tag: none, counted as suppressed,
/// where the same text or none is on display before and after, and else one, counted as
/// a show or a clear by whether there is text on it.
pub proof fn an_instant_gives_at_most_one_tag(
    active: &mut Option<ActiveState>,
    reached: &Vec<ReachedTransition>,
    name: MessageName,
    timestamp_ms: u64,
    result: Coalesced,
)
    requires
        call_ensures(coalesce, (active, reached, name), result),
        reached@.len() > 0,
        forall|i: int| 0 <= i < reached@.len() ==> (#[trigger] reached@[i]).timestamp_ms
            == timestamp_ms,
    ensures
        ({
            let same = match (*old(active), *final(active)) {
                (None, None) => true,
                (Some(before), Some(after)) => before.text@ == after.text@,
                _ => false,
            };
            let shown = *final(active) matches Some(after) && after.text@.len() > 0;
            &&& same ==> result.tags@.len() == 0 && result.suppressed == 1 && result.shows == 0
                && result.clears == 0
            &&& !same ==> result.tags@.len() == 1 && result.suppressed == 0
            &&& !same && shown ==> result.shows == 1 && result.clears == 0
            &&& !same && !shown ==> result.shows == 0 && result.clears == 1
        }),
{
    let before = display(*old(active));
    let all = reached_view(reached@);
    assert forall|i: int| 0 <= i < all.len() implies (#[trigger] all[i]).timestamp_ms
        == timestamp_ms by {
        assert(all[i] == reached@[i]@);
    }
    one_instant_makes_one_change(before, all, timestamp_ms);
    let changes = outcome(before, all).changes;
    assert(tag_bytes(result.tags@).len() == change_tags(changes, name).len());
    if changes.len() == 1 {
        assert(changes.drop_last() =~= Seq::empty());
        assert(changes.last() == changes[0]);
        reveal_with_fuel(show_count, 2);
    }
}

/// What is on display after reached transitions is what the last of them leaves, where
/// that is a show or an explicit clear.
pub proof fn the_last_transition_decides(
    active: &mut Option<ActiveState>,
    reached: &Vec<ReachedTransition>,
    name: MessageName,
    result: Coalesced,
)
    requires
        call_ensures(coalesce, (active, reached, name), result),
        reached@.len() > 0,
    ensures
        reached@.last().kind matches TransitionKind::Show { generation, text } ==> (*final(active) matches Some(state) && state.generation == generation && state.text@ == text@),
        reached@.last().kind == (TransitionKind::Clear { owner: None }) ==> *final(active) is None,
{
    let all = reached_view(reached@);
    let before = display(*old(active));
    assert(all.last() == reached@.last()@);
    assert(all.drop_last().push(all.last()) =~= all);
    apply_one_more(before, all.drop_last(), all.last());
}

/// Tag timestamps are whole milliseconds behind the origin, as long as they can be
/// written, and zero in front of it.
pub proof fn a_tag_is_stamped_from_the_origin(running_time: u64, origin: u64, timestamp_ms: u64)
    requires
        call_ensures(tag_timestamp_ms, (running_time, origin), timestamp_ms),
    ensures
        running_time <= origin ==> timestamp_ms == 0,
        origin <= running_time && running_time - origin < 0x8000_0000 * 1_000_000 ==> timestamp_ms
            * 1_000_000 <= running_time - origin < (timestamp_ms + 1) * 1_000_000,
        running_time - origin >= 0x8000_0000 * 1_000_000 ==> timestamp_ms == 0x7fff_ffff,
{
    tag_timestamps_count_milliseconds(running_time, running_time, origin);
}


/// Of an empty queue nothing is due and nothing is left.
pub proof fn nothing_waits_and_nothing_is_due(
    pending: Seq<Transition>,
    origin: u64,
    position_ms: u64,
    lateness: Lateness,
)
    requires
        pending.len() == 0,
    ensures
        due(pending, origin, position_ms, lateness).len() == 0,
        waiting(pending, origin, position_ms).len() == 0,
{
    waiting_is_no_longer(pending, origin, position_ms);
    pending.lemma_filter_len(
        |transition: Transition| placement(transition, origin, position_ms, lateness) is At,
    );
    assert(due_unordered(pending, origin, position_ms, lateness).len() == 0);
}

} // verus!
