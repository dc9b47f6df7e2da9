use vstd::prelude::*;
use crate::object::{Object, ObjV};

verus! {

/// One scope frame: a name-to-value mapping with unique keys (last write
/// wins) and an optional link to the enclosing frame, recorded as an index
/// into the arena so that several closures may share one enclosing frame.
struct Frame {
    entries: Vec<(String, Object)>,
    outer: Option<usize>,
}

/// Mathematical model of one frame.
pub struct FrameV {
    pub map: Map<Seq<char>, ObjV>,
    pub outer: Option<int>,
}

/// The environment: an arena of scope frames. Frame 0 is the root frame of a
/// session; a closure captures the index of its defining frame, and a call
/// adds a child frame whose outer link points at that captured index.
pub struct Env {
    frames: Vec<Frame>,
}

pub open spec fn keys_distinct(entries: Seq<(String, Object)>) -> bool {
    forall|i: int, j: int| 0 <= i < j < entries.len() ==> entries[i].0@ != entries[j].0@
}

pub closed spec fn frame_entries_map(entries: Seq<(String, Object)>) -> Map<Seq<char>, ObjV>
    decreases entries,
{
    if entries.len() == 0 {
        Map::empty()
    } else {
        frame_entries_map(entries.subrange(0, entries.len() - 1)).insert(
            entries[entries.len() - 1].0@,
            entries[entries.len() - 1].1@,
        )
    }
}

spec fn frame_view(f: Frame) -> FrameV {
    FrameV {
        map: frame_entries_map(f.entries@),
        outer: match f.outer {
            Some(j) => Some(j as int),
            None => None,
        },
    }
}

impl View for Env {
    type V = Seq<FrameV>;

    closed spec fn view(&self) -> Seq<FrameV> {
        self.frames@.map_values(|f: Frame| frame_view(f))
    }
}

/// Name resolution through the frame chain starting at frame `idx`: the local
/// mapping first, then the outer frame, and `Null` once the chain is
/// exhausted. Broken indices resolve to `Null` as well, which keeps the
/// definition total; a well-formed environment never produces them.
pub open spec fn env_lookup(env: Seq<FrameV>, idx: int, name: Seq<char>) -> ObjV
    decreases idx,
{
    if 0 <= idx < env.len() {
        let f = env[idx];
        if f.map.dom().contains(name) {
            f.map[name]
        } else {
            match f.outer {
                Some(j) => if 0 <= j < idx {
                    env_lookup(env, j, name)
                } else {
                    ObjV::Null
                },
                None => ObjV::Null,
            }
        }
    } else {
        ObjV::Null
    }
}

proof fn lemma_frame_map(entries: Seq<(String, Object)>)
    requires
        keys_distinct(entries),
    ensures
        forall|i: int|
            0 <= i < entries.len() ==> {
                &&& frame_entries_map(entries).dom().contains(#[trigger] entries[i].0@)
                &&& frame_entries_map(entries)[entries[i].0@] == entries[i].1@
            },
        forall|k: Seq<char>|
            frame_entries_map(entries).dom().contains(k) ==> exists|i: int|
                0 <= i < entries.len() && #[trigger] entries[i].0@ == k,
    decreases entries,
{
    if entries.len() > 0 {
        let prefix = entries.subrange(0, entries.len() - 1);
        lemma_frame_map(prefix);
        assert forall|i: int| 0 <= i < entries.len() implies {
            &&& frame_entries_map(entries).dom().contains(#[trigger] entries[i].0@)
            &&& frame_entries_map(entries)[entries[i].0@] == entries[i].1@
        } by {
            if i < entries.len() - 1 {
                assert(prefix[i] == entries[i]);
                assert(entries[i].0@ != entries[entries.len() - 1].0@);
            }
        }
        assert forall|k: Seq<char>| frame_entries_map(entries).dom().contains(k) implies exists|
            i: int,
        |
            0 <= i < entries.len() && #[trigger] entries[i].0@ == k by {
            if k != entries[entries.len() - 1].0@ {
                assert(frame_entries_map(prefix).dom().contains(k));
                let i = choose|i: int| 0 <= i < prefix.len() && #[trigger] prefix[i].0@ == k;
                assert(prefix[i] == entries[i]);
                assert(entries[i].0@ == k);
            } else {
                assert(entries[entries.len() - 1].0@ == k);
            }
        }
    }
}

proof fn lemma_frame_map_update(entries: Seq<(String, Object)>, j: int, p: (String, Object))
    requires
        keys_distinct(entries),
        0 <= j < entries.len(),
        p.0@ == entries[j].0@,
    ensures
        keys_distinct(entries.update(j, p)),
        frame_entries_map(entries.update(j, p)) == frame_entries_map(entries).insert(p.0@, p.1@),
    decreases entries,
{
    let upd = entries.update(j, p);
    let n = entries.len() as int;
    let prefix = entries.subrange(0, n - 1);
    if j == n - 1 {
        assert(upd.subrange(0, n - 1) =~= prefix);
        assert(frame_entries_map(upd) == frame_entries_map(prefix).insert(p.0@, p.1@));
        assert(frame_entries_map(prefix).insert(entries[j].0@, entries[j].1@).insert(p.0@, p.1@)
            =~= frame_entries_map(prefix).insert(p.0@, p.1@));
    } else {
        assert(upd.subrange(0, n - 1) =~= prefix.update(j, p));
        assert(prefix[j] == entries[j]);
        lemma_frame_map_update(prefix, j, p);
        let last = entries[n - 1];
        assert(upd[n - 1] == last);
        assert(frame_entries_map(upd) == frame_entries_map(prefix.update(j, p)).insert(
            last.0@,
            last.1@,
        ));
        assert(p.0@ != last.0@);
        assert(frame_entries_map(prefix).insert(p.0@, p.1@).insert(last.0@, last.1@)
            =~= frame_entries_map(prefix).insert(last.0@, last.1@).insert(p.0@, p.1@));
    }
}

impl Env {
    /// Internal consistency: every frame has unique keys and every outer link
    /// points at an earlier frame in the arena.
    pub closed spec fn inv(&self) -> bool {
        forall|i: int|
            0 <= i < self.frames@.len() ==> {
                &&& keys_distinct(#[trigger] self.frames@[i].entries@)
                &&& match self.frames@[i].outer {
                    Some(j) => j < i,
                    None => true,
                }
            }
    }

    /// A fresh environment holding only the root frame.
    pub fn new() -> (r: Env)
        ensures
            r.inv(),
            r@.len() == 1,
            r@[0].map == Map::<Seq<char>, ObjV>::empty(),
            r@[0].outer is None,
    {
        let frames = vec![Frame { entries: Vec::new(), outer: None }];
        Env { frames }
    }

    pub fn frame_count(&self) -> (r: usize)
        ensures
            r == self@.len(),
    {
        self.frames.len()
    }

    /// Adds a fresh, empty frame whose outer link points at `outer` — the
    /// frame a closure being invoked captured at its creation — and returns
    /// the new frame's index.
    pub fn new_closure(&mut self, outer: usize) -> (r: usize)
        requires
            old(self).inv(),
            outer < old(self)@.len(),
        ensures
            final(self).inv(),
            r == old(self)@.len(),
            final(self)@ == old(self)@.push(
                FrameV { map: Map::<Seq<char>, ObjV>::empty(), outer: Some(outer as int) },
            ),
    {
        let r = self.frames.len();
        self.frames.push(Frame { entries: Vec::new(), outer: Some(outer) });
        proof {
            assert(self@ =~= old(self)@.push(
                FrameV { map: Map::<Seq<char>, ObjV>::empty(), outer: Some(outer as int) },
            ));
        }
        r
    }

    /// Resolves `key` starting at frame `frame`: the local mapping first,
    /// then outward through the chain; an unbound name yields `Null`.
    pub fn get(&self, frame: usize, key: &String) -> (r: Object)
        requires
            self.inv(),
            frame < self@.len(),
        ensures
            r@ == env_lookup(self@, frame as int, key@),
    {
        let mut cur: usize = frame;
        loop
            invariant
                self.inv(),
                cur < self@.len(),
                env_lookup(self@, frame as int, key@) == env_lookup(self@, cur as int, key@),
            decreases cur,
        {
            proof {
                lemma_frame_map(self.frames@[cur as int].entries@);
            }
            match find_key(&self.frames[cur].entries, key) {
                Some(i) => {
                    return self.frames[cur].entries[i].1.clone();
                },
                None => {
                    proof {
                        assert(!self@[cur as int].map.dom().contains(key@));
                    }
                    match self.frames[cur].outer {
                        Some(j) => {
                            cur = j;
                        },
                        None => {
                            return Object::Null;
                        },
                    }
                },
            }
        }
    }

    /// Inserts or overwrites `key` in exactly the local mapping of frame
    /// `frame`; never touches an outer frame.
    #[verifier::rlimit(60)]
    pub fn set(&mut self, frame: usize, key: &String, value: Object)
        requires
            old(self).inv(),
            frame < old(self)@.len(),
        ensures
            final(self).inv(),
            final(self)@ == old(self)@.update(
                frame as int,
                FrameV {
                    map: old(self)@[frame as int].map.insert(key@, value@),
                    outer: old(self)@[frame as int].outer,
                },
            ),
    {
        let ghost old_env = self@;
        let ghost old_frames = self.frames@;
        let mut fr = self.frames.remove(frame);
        let ghost old_entries = fr.entries@;
        proof {
            assert(keys_distinct(old_entries));
        }
        let newpair = (key.clone(), value);
        match find_key(&fr.entries, key) {
            Some(i) => {
                proof {
                    lemma_frame_map_update(old_entries, i as int, newpair);
                }
                fr.entries.set(i, newpair);
            },
            None => {
                fr.entries.push(newpair);
                proof {
                    assert forall|a: int, b: int|
                        0 <= a < b < fr.entries@.len() implies fr.entries@[a].0@
                        != fr.entries@[b].0@ by {
                        if b < fr.entries@.len() - 1 {
                            assert(old_entries[a] == fr.entries@[a]);
                            assert(old_entries[b] == fr.entries@[b]);
                        } else {
                            assert(old_entries[a] == fr.entries@[a]);
                        }
                    }
                    assert(fr.entries@.subrange(0, fr.entries@.len() - 1) =~= old_entries);
                }
            },
        }
        proof {
            assert(keys_distinct(fr.entries@));
            assert(frame_entries_map(fr.entries@) =~= frame_entries_map(old_entries).insert(
                key@,
                value@,
            ));
        }
        self.frames.insert(frame, fr);
        proof {
            let newv = FrameV {
                map: old_env[frame as int].map.insert(key@, value@),
                outer: old_env[frame as int].outer,
            };
            assert forall|k: int| 0 <= k < self@.len() implies self@[k] == old_env.update(
                frame as int,
                newv,
            )[k] by {
                if k < frame as int {
                    assert(self.frames@[k] == old_frames[k]);
                } else if k == frame as int {
                    assert(self.frames@[k] == fr);
                } else {
                    assert(self.frames@[k] == old_frames[k]);
                }
            }
            assert(self@ =~= old_env.update(frame as int, newv));
            assert forall|k: int| 0 <= k < self.frames@.len() implies {
                &&& keys_distinct(#[trigger] self.frames@[k].entries@)
                &&& match self.frames@[k].outer {
                    Some(j) => j < k,
                    None => true,
                }
            } by {
                if k != frame as int {
                    assert(self.frames@[k] == old_frames[k]);
                    assert(keys_distinct(old(self).frames@[k].entries@));
                } else {
                    assert(self.frames@[k] == fr);
                    assert(old_frames[k].outer == fr.outer);
                }
            }
            assert(self.inv());
        }
    }
}

/// Frames added to the arena after a frame was captured do not change what
/// names resolve to through that frame: a closure invoked after later `let`
/// bindings in other frames still resolves its free names through the chain
/// it captured.
pub proof fn lemma_env_lookup_unaffected_by_push(
    env: Seq<FrameV>,
    frame: FrameV,
    idx: int,
    name: Seq<char>,
)
    requires
        0 <= idx < env.len(),
    ensures
        env_lookup(env.push(frame), idx, name) == env_lookup(env, idx, name),
    decreases idx,
{
    if !env[idx].map.dom().contains(name) {
        match env[idx].outer {
            Some(j) => {
                if 0 <= j < idx {
                    lemma_env_lookup_unaffected_by_push(env, frame, j, name);
                }
            },
            None => (),
        }
    }
}

/// A name that is not bound in the local frame resolves through the frame's
/// outer link — for a frame made for a call, the captured environment.
pub proof fn lemma_env_lookup_falls_through(env: Seq<FrameV>, frame: FrameV, name: Seq<char>)
    requires
        !frame.map.dom().contains(name),
        match frame.outer {
            Some(j) => 0 <= j < env.len(),
            None => false,
        },
    ensures
        env_lookup(env.push(frame), env.len() as int, name) == env_lookup(
            env,
            frame.outer->Some_0,
            name,
        ),
{
    lemma_env_lookup_unaffected_by_push(env, frame, frame.outer->Some_0, name);
}

/// Index of the first entry whose key matches `key`, if any.
fn find_key(entries: &Vec<(String, Object)>, key: &String) -> (r: Option<usize>)
    ensures
        match r {
            Some(i) => i < entries@.len() && entries@[i as int].0@ == key@,
            None => forall|j: int| 0 <= j < entries@.len() ==> entries@[j].0@ != key@,
        },
{
    let mut i: usize = 0;
    while i < entries.len()
        invariant
            i <= entries@.len(),
            forall|j: int| 0 <= j < i ==> entries@[j].0@ != key@,
        decreases entries@.len() - i,
    {
        if entries[i].0 == *key {
            return Some(i);
        }
        i += 1;
    }
    None
}

} // verus!
