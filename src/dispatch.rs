use vstd::prelude::*;

use crate::command::{start_for, start_spec, Command, Start};
use crate::table::ClipTable;

verus! {

/// The handles tracked for clip `c` in a registry `active`; none where `c`
/// has no entry.
pub open spec fn handles_in<H>(active: Map<Seq<char>, Seq<H>>, c: Seq<char>) -> Seq<H> {
    if active.contains_key(c) {
        active[c]
    } else {
        Seq::empty()
    }
}

/// The registry after one more playback of `c`, with handle `h`, is tracked.
pub open spec fn after_play<H>(active: Map<Seq<char>, Seq<H>>, c: Seq<char>, h: H) -> Map<
    Seq<char>,
    Seq<H>,
> {
    active.insert(c, handles_in(active, c).push(h))
}

/// The registry after a stop of clip `c`: its entry, if it has one, is emptied.
pub open spec fn after_stop<H>(active: Map<Seq<char>, Seq<H>>, c: Seq<char>) -> Map<
    Seq<char>,
    Seq<H>,
> {
    if active.contains_key(c) {
        active.insert(c, Seq::empty())
    } else {
        active
    }
}

/// Whether a play of `c` must first decode the clip, given the decode cache.
pub open spec fn needs_decode<D>(cache: Map<Seq<char>, D>, c: Seq<char>) -> bool {
    !cache.contains_key(c)
}

/// What the worker must do to start one playback.
pub struct PlayRequest {
    /// The clip to play.
    pub clip: String,
    /// Whether the samples are played back to front.
    pub reversed: bool,
    /// When the playback starts.
    pub start: Start,
    /// Whether the clip must be decoded (and then stored) first.
    pub decode: bool,
}

/// The request that a play of `clip` gives, for a given decode cache.
pub open spec fn is_request_for<D>(
    p: PlayRequest,
    cache: Map<Seq<char>, D>,
    clip: Seq<char>,
    reversed: bool,
    delay_ms: u32,
) -> bool {
    &&& p.clip@ == clip
    &&& p.reversed == reversed
    &&& p.start == start_spec(delay_ms)
    &&& p.decode == needs_decode(cache, clip)
}

/// The work that a command asks of the audio device.
pub enum Action<H> {
    /// Start a playback.
    Play(PlayRequest),
    /// Stop each of these handles with a fade of zero length.
    Stop(Vec<H>),
}

/// State of the audio worker: the decode cache (clip to decoded data) and the
/// registry of playback handles (clip to handles, in order of play).
pub struct Dispatcher<D, H> {
    cache: ClipTable<D>,
    active: ClipTable<Vec<H>>,
}

impl<D, H> Dispatcher<D, H> {
    /// Both tables keep one entry per clip.
    pub closed spec fn wf(&self) -> bool {
        self.cache.wf() && self.active.wf()
    }

    /// The decode cache.
    pub closed spec fn cache(&self) -> Map<Seq<char>, D> {
        self.cache@
    }

    /// The registry of tracked playback handles.
    pub closed spec fn active(&self) -> Map<Seq<char>, Seq<H>> {
        self.active@.map_values(|v: Vec<H>| v@)
    }

    /// The clips that have a registry entry, in the order of their first play.
    pub closed spec fn active_order(&self) -> Seq<Seq<char>> {
        self.active.keys()
    }

    /// The registry's handle lists, in the order of `active_order`.
    pub open spec fn active_lists(&self) -> Seq<Seq<H>> {
        self.active_order().map_values(|c: Seq<char>| self.active()[c])
    }

    proof fn lemma_active_lists(&self)
        requires
            self.wf(),
        ensures
            self.active_lists() == self.active.values().map_values(|v: Vec<H>| v@),
    {
        assert forall|i: int| 0 <= i < self.active_lists().len() implies self.active_lists()[i]
            == self.active.values()[i]@ by {
            self.active.lemma_index_of(i);
        }
        assert(self.active_lists() =~= self.active.values().map_values(|v: Vec<H>| v@));
    }

    /// A worker with an empty cache and an empty registry.
    pub fn new() -> (r: Self)
        ensures
            r.wf(),
            r.cache() == Map::<Seq<char>, D>::empty(),
            r.active() == Map::<Seq<char>, Seq<H>>::empty(),
            r.active_order() == Seq::<Seq<char>>::empty(),
    {
        let r = Dispatcher { cache: ClipTable::new(), active: ClipTable::new() };
        assert(r.active() =~= Map::<Seq<char>, Seq<H>>::empty());
        r
    }

    /// The decoded data cached for `clip`, if any.
    pub fn decoded(&self, clip: &String) -> (r: Option<&D>)
        requires
            self.wf(),
        ensures
            r.is_some() == self.cache().contains_key(clip@),
            r matches Some(d) ==> *d == self.cache()[clip@],
    {
        self.cache.get(clip)
    }

    /// The handles tracked for `clip`, in order of play.
    pub fn handles(&self, clip: &String) -> (r: &[H])
        requires
            self.wf(),
        ensures
            r@ == handles_in(self.active(), clip@),
    {
        match self.active.get(clip) {
            Some(v) => v.as_slice(),
            None => &[],
        }
    }

    /// The number of clips that have a registry entry, empty or not.
    pub fn entry_count(&self) -> (r: usize)
        requires
            self.wf(),
        ensures
            r == self.active().dom().len(),
    {
        proof {
            self.lemma_active_dom_len();
        }
        self.active.len()
    }

    proof fn lemma_active_dom_len(&self)
        requires
            self.wf(),
        ensures
            self.active().dom().len() == self.active.keys().len(),
    {
        let keys = self.active.keys();
        keys.unique_seq_to_set();
        assert(self.active().dom() =~= keys.to_set());
    }

    /// Plans one playback of `clip`. Decoded data is reused from the cache;
    /// neither the cache nor the registry changes.
    pub fn plan_play(&self, clip: String, reversed: bool, delay_ms: u32) -> (r: PlayRequest)
        requires
            self.wf(),
        ensures
            is_request_for(r, self.cache(), clip@, reversed, delay_ms),
    {
        let decode = self.cache.find(&clip).is_none();
        PlayRequest { clip, reversed, start: start_for(delay_ms), decode }
    }

    /// Keeps the data decoded for a clip that had none cached.
    pub fn store_decoded(&mut self, clip: String, data: D)
        requires
            old(self).wf(),
            !old(self).cache().contains_key(clip@),
        ensures
            final(self).wf(),
            final(self).cache() == old(self).cache().insert(clip@, data),
            final(self).active() == old(self).active(),
            final(self).active_order() == old(self).active_order(),
    {
        self.cache.insert_new(clip, data);
    }

    /// Tracks the handle of a playback of `clip` that the device started.
    pub fn record_play(&mut self, clip: String, handle: H)
        requires
            old(self).wf(),
        ensures
            final(self).wf(),
            final(self).cache() == old(self).cache(),
            final(self).active() == after_play(old(self).active(), clip@, handle),
            final(self).active_order() == if old(self).active().contains_key(clip@) {
                old(self).active_order()
            } else {
                old(self).active_order().push(clip@)
            },
    {
        let ghost pre = self.active();
        let ghost c = clip@;
        match self.active.find(&clip) {
            Some(i) => {
                proof {
                    self.active.lemma_index_of(i as int);
                }
                let mut list = self.active.replace_at(i, Vec::new());
                list.push(handle);
                self.active.replace_at(i, list);
            },
            None => {
                let mut list: Vec<H> = Vec::new();
                list.push(handle);
                self.active.insert_new(clip, list);
            },
        }
        assert(self.active() =~= after_play(pre, c, handle));
    }

    /// Stops `clip`: returns the handles that must be stopped, in order of
    /// play, and leaves the clip's entry empty. Without an entry nothing changes.
    pub fn stop_clip(&mut self, clip: &String) -> (r: Vec<H>)
        requires
            old(self).wf(),
        ensures
            final(self).wf(),
            r@ == handles_in(old(self).active(), clip@),
            final(self).cache() == old(self).cache(),
            final(self).active() == after_stop(old(self).active(), clip@),
            final(self).active_order() == old(self).active_order(),
    {
        let ghost pre = self.active();
        match self.active.find(clip) {
            Some(i) => {
                proof {
                    self.active.lemma_index_of(i as int);
                }
                let r = self.active.replace_at(i, Vec::new());
                assert(self.active() =~= after_stop(pre, clip@));
                r
            },
            None => Vec::new(),
        }
    }

    /// Stops every clip: returns every tracked handle, clip after clip, and
    /// empties the registry.
    pub fn stop_all(&mut self) -> (r: Vec<H>)
        requires
            old(self).wf(),
        ensures
            final(self).wf(),
            r@ == old(self).active_lists().flatten(),
            forall|c: Seq<char>, i: int|
                old(self).active().contains_key(c) && 0 <= i < old(self).active()[c].len()
                    ==> r@.contains(#[trigger] old(self).active()[c][i]),
            final(self).cache() == old(self).cache(),
            final(self).active() == Map::<Seq<char>, Seq<H>>::empty(),
            final(self).active_order() == Seq::<Seq<char>>::empty(),
    {
        let ghost pre = *self;
        proof {
            pre.lemma_active_lists();
        }
        let mut lists = self.active.drain();
        let mut r: Vec<H> = Vec::new();
        let ghost all = lists@.map_values(|v: Vec<H>| v@);
        assert(all == pre.active_lists());
        let n = lists.len();
        let mut k: usize = 0;
        assert(all.subrange(0, all.len() as int) =~= all);
        assert(r@ + all.flatten() =~= all.flatten());
        while lists.len() > 0
            invariant
                k <= all.len(),
                lists@.len() + k == all.len(),
                all.len() == n,
                lists@.map_values(|v: Vec<H>| v@) == all.subrange(k as int, all.len() as int),
                r@ + all.subrange(k as int, all.len() as int).flatten() == all.flatten(),
            decreases lists.len(),
        {
            let ghost rest = all.subrange(k as int, all.len() as int);
            let mut first = lists.remove(0);
            assert(rest.drop_first() =~= all.subrange(k + 1, all.len() as int));
            assert(lists@.map_values(|v: Vec<H>| v@) =~= rest.drop_first());
            r.append(&mut first);
            assert(r@ + rest.drop_first().flatten() =~= all.flatten());
            k = k + 1;
        }
        assert(all.subrange(k as int, all.len() as int) =~= Seq::<Seq<H>>::empty());
        assert(r@ =~= all.flatten());
        assert forall|c: Seq<char>, i: int|
            pre.active().contains_key(c) && 0 <= i < pre.active()[c].len() implies r@.contains(
            #[trigger] pre.active()[c][i],
        ) by {
            let j = pre.active.keys().index_of(c);
            assert(0 <= j < pre.active.keys().len() && pre.active.keys()[j] == c);
            lemma_flatten_holds(all, j, i);
        }
        assert(self.active() =~= Map::<Seq<char>, Seq<H>>::empty());
        r
    }

    /// Takes a command from the channel and says what the device must do.
    /// A play leaves both tables as they are (the caller stores a fresh decode
    /// with `store_decoded` and the new handle with `record_play`); a stop
    /// updates the registry and hands back the handles to stop.
    pub fn accept(&mut self, cmd: Command) -> (r: Action<H>)
        requires
            old(self).wf(),
        ensures
            final(self).wf(),
            final(self).cache() == old(self).cache(),
            match cmd {
                Command::Play { clip, reversed, delay_ms } => {
                    &&& r matches Action::Play(p)
                    &&& is_request_for(p, old(self).cache(), clip@, reversed, delay_ms)
                    &&& final(self).active() == old(self).active()
                    &&& final(self).active_order() == old(self).active_order()
                },
                Command::Stop { clip } => {
                    &&& r matches Action::Stop(hs)
                    &&& hs@ == handles_in(old(self).active(), clip@)
                    &&& final(self).active() == after_stop(old(self).active(), clip@)
                    &&& final(self).active_order() == old(self).active_order()
                },
                Command::StopAll => {
                    &&& r matches Action::Stop(hs)
                    &&& hs@ == old(self).active_lists().flatten()
                    &&& final(self).active() == Map::<Seq<char>, Seq<H>>::empty()
                    &&& final(self).active_order() == Seq::<Seq<char>>::empty()
                },
            },
    {
        match cmd {
            Command::Play { clip, reversed, delay_ms } => Action::Play(
                self.plan_play(clip, reversed, delay_ms),
            ),
            Command::Stop { clip } => Action::Stop(self.stop_clip(&clip)),
            Command::StopAll => Action::Stop(self.stop_all()),
        }
    }
}

/// Each element of each list is an element of the lists' concatenation.
pub proof fn lemma_flatten_holds<A>(lists: Seq<Seq<A>>, j: int, i: int)
    requires
        0 <= j < lists.len(),
        0 <= i < lists[j].len(),
    ensures
        lists.flatten().contains(lists[j][i]),
    decreases lists.len(),
{
    if j == 0 {
        assert(lists.flatten()[i] == lists[0][i]);
    } else {
        lemma_flatten_holds(lists.drop_first(), j - 1, i);
        let k = choose|k: int|
            0 <= k < lists.drop_first().flatten().len() && lists.drop_first().flatten()[k]
                == lists[j][i];
        assert(lists.flatten()[lists[0].len() + k] == lists[j][i]);
    }
}

} // verus!
