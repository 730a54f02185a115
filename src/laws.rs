use vstd::prelude::*;

use crate::dispatch::{after_play, after_stop, handles_in, is_request_for, needs_decode, PlayRequest};

verus! {

/// A clip is decoded on its first play only: once its data is stored, no
/// later play of it needs a decode, and storing other clips keeps its data.
pub proof fn lemma_decode_once<D>(cache: Map<Seq<char>, D>, c: Seq<char>, data: D)
    requires
        !cache.contains_key(c),
    ensures
        needs_decode(cache, c),
        !needs_decode(cache.insert(c, data), c),
        cache.insert(c, data)[c] == data,
        forall|c2: Seq<char>, d2: D|
            c2 != c ==> !needs_decode(#[trigger] cache.insert(c, data).insert(c2, d2), c)
                && cache.insert(c, data).insert(c2, d2)[c] == data,
{
}

/// The registry after plays of `c` with handles `hs`, one after the other.
pub open spec fn after_plays<H>(active: Map<Seq<char>, Seq<H>>, c: Seq<char>, hs: Seq<H>) -> Map<
    Seq<char>,
    Seq<H>,
>
    decreases hs.len(),
{
    if hs.len() == 0 {
        active
    } else {
        after_play(after_plays(active, c, hs.drop_last()), c, hs.last())
    }
}

/// Each play of `c` adds exactly its handle to `c`'s list, and touches no
/// other clip; from an empty or missing entry, `c` then has one handle per
/// play, in order of play.
pub proof fn lemma_plays_counted<H>(active: Map<Seq<char>, Seq<H>>, c: Seq<char>, hs: Seq<H>)
    ensures
        handles_in(after_plays(active, c, hs), c) == handles_in(active, c) + hs,
        handles_in(active, c).len() == 0 ==> handles_in(after_plays(active, c, hs), c) == hs,
        handles_in(after_plays(active, c, hs), c).len() == handles_in(active, c).len() + hs.len(),
        forall|c2: Seq<char>|
            c2 != c ==> handles_in(#[trigger] after_plays(active, c, hs), c2) == handles_in(
                active,
                c2,
            ),
    decreases hs.len(),
{
    if hs.len() > 0 {
        lemma_plays_counted(active, c, hs.drop_last());
        assert(handles_in(active, c) + hs =~= (handles_in(active, c) + hs.drop_last()).push(
            hs.last(),
        ));
    } else {
        assert(handles_in(active, c) + hs =~= handles_in(active, c));
    }
    if handles_in(active, c).len() == 0 {
        assert(handles_in(active, c) + hs =~= hs);
    }
}

/// A stop of `c` leaves `c` with no handle and other clips as they were; on a
/// clip with no entry, or with an empty one, it changes nothing.
pub proof fn lemma_stop_clip<H>(active: Map<Seq<char>, Seq<H>>, c: Seq<char>)
    ensures
        handles_in(after_stop(active, c), c) == Seq::<H>::empty(),
        forall|c2: Seq<char>|
            c2 != c ==> handles_in(#[trigger] after_stop(active, c), c2) == handles_in(active, c2),
        handles_in(active, c).len() == 0 ==> after_stop(active, c) == active,
{
    if active.contains_key(c) && active[c].len() == 0 {
        assert(active[c] =~= Seq::<H>::empty());
        assert(after_stop(active, c) =~= active);
    }
}

/// After a stop of every clip no clip has a handle, so a second stop of every
/// clip stops nothing and leaves the registry as it is.
pub proof fn lemma_stop_all_twice<H>()
    ensures
        Seq::<Seq<H>>::empty().flatten() == Seq::<H>::empty(),
        forall|c: Seq<char>|
            #[trigger] handles_in(Map::<Seq<char>, Seq<H>>::empty(), c) == Seq::<H>::empty(),
{
}

/// A reversed play asks for reverse traversal, and a forward play of the same
/// clip right after it asks for forward traversal of the same cached data:
/// the reversed request leaves the cache as the first decode stored it.
pub proof fn lemma_reverse_then_forward<D>(
    p1: PlayRequest,
    p2: PlayRequest,
    cache: Map<Seq<char>, D>,
    c: Seq<char>,
    data: D,
    d1: u32,
    d2: u32,
)
    requires
        is_request_for(p1, cache, c, true, d1),
        is_request_for(
            p2,
            if p1.decode {
                cache.insert(c, data)
            } else {
                cache
            },
            c,
            false,
            d2,
        ),
    ensures
        p1.reversed,
        !p2.reversed,
        !p2.decode,
        p1.decode ==> cache.insert(c, data)[c] == data,
        !p1.decode ==> cache.contains_key(c),
{
}

} // verus!
