//! Folding a chain of events into the state that it describes.

use crate::cid::{bytes_eq, Cid};
use crate::dag_cbor::{cid_option, key_views};
use crate::event::{clone_optional_cid, EnvelopeModel, EventEnvelope, EventKind, KindModel};
use crate::table::{
    keys_unique, pairs_map, pairs_map_contains, pairs_map_index, pairs_map_push, pairs_map_update,
};
use vstd::prelude::*;

pub mod laws;

verus! {

/// A post as its events left it.
#[derive(Debug)]
pub struct PostEntry {
    pub cid: Cid,
    pub author: [u8; 32],
    pub text: String,
    pub timestamp: i64,
    pub deleted: bool,
    /// The position of the edit that counts, or of the post itself.
    pub latest_edit_seq: u64,
}

/// A profile.
#[derive(Debug)]
pub struct ProfileState {
    pub display_name: String,
    pub bio: String,
    pub avatar_cid: Option<Cid>,
}

/// What a chain of events describes.
#[derive(Debug)]
pub struct ChainState {
    /// The posts, in the order in which they were made; none occurs twice.
    pub posts: Vec<PostEntry>,
    /// The profile with the highest position, and that position.
    pub profile: Option<(u64, ProfileState)>,
    /// The accounts followed; none occurs twice.
    pub following: Vec<[u8; 32]>,
}

/// Model of [`PostEntry`].
pub struct PostModel {
    pub cid: Seq<u8>,
    pub author: Seq<u8>,
    pub text: Seq<char>,
    pub timestamp: i64,
    pub deleted: bool,
    pub latest_edit_seq: u64,
}

/// Model of [`ProfileState`].
pub struct ProfileModel {
    pub display_name: Seq<char>,
    pub bio: Seq<char>,
    pub avatar_cid: Option<Seq<u8>>,
}

/// Model of [`ChainState`].
#[verifier::ext_equal]
pub struct ChainModel {
    pub posts: Map<Seq<u8>, PostModel>,
    pub profile: Option<(u64, ProfileModel)>,
    pub following: Set<Seq<u8>>,
}

impl View for PostEntry {
    type V = PostModel;

    open spec fn view(&self) -> PostModel {
        PostModel {
            cid: self.cid@,
            author: self.author@,
            text: self.text@,
            timestamp: self.timestamp,
            deleted: self.deleted,
            latest_edit_seq: self.latest_edit_seq,
        }
    }
}

impl View for ProfileState {
    type V = ProfileModel;

    open spec fn view(&self) -> ProfileModel {
        ProfileModel {
            display_name: self.display_name@,
            bio: self.bio@,
            avatar_cid: cid_option(self.avatar_cid),
        }
    }
}

/// The posts of a list, with their CIDs.
pub open spec fn post_pairs(posts: Seq<PostEntry>) -> Seq<(Seq<u8>, PostModel)> {
    posts.map_values(|p: PostEntry| (p.cid@, p@))
}

impl View for ChainState {
    type V = ChainModel;

    open spec fn view(&self) -> ChainModel {
        ChainModel {
            posts: pairs_map(post_pairs(self.posts@)),
            profile: match self.profile {
                Some(p) => Some((p.0, p.1@)),
                None => None,
            },
            following: key_views(self.following@).to_set(),
        }
    }
}

/// The state before any event.
pub open spec fn empty_chain() -> ChainModel {
    ChainModel { posts: Map::empty(), profile: None, following: Set::empty() }
}

/// What one event does to the state. An edit or a deletion counts only for a post by the same
/// author, and an edit only if its position is higher than that of the edit before it.
pub open spec fn chain_step(state: ChainModel, cid: Seq<u8>, e: EnvelopeModel) -> ChainModel {
    let p = e.payload;
    match p.kind {
        KindModel::Post { text } => ChainModel {
            posts: state.posts.insert(
                cid,
                PostModel {
                    cid,
                    author: p.author,
                    text,
                    timestamp: p.timestamp,
                    deleted: false,
                    latest_edit_seq: p.seq,
                },
            ),
            ..state
        },
        KindModel::Edit { text, target } => if state.posts.dom().contains(target)
            && state.posts[target].author == p.author && p.seq
            > state.posts[target].latest_edit_seq {
            ChainModel {
                posts: state.posts.insert(
                    target,
                    PostModel { text, latest_edit_seq: p.seq, ..state.posts[target] },
                ),
                ..state
            }
        } else {
            state
        },
        KindModel::Delete { target } => if state.posts.dom().contains(target)
            && state.posts[target].author == p.author {
            ChainModel {
                posts: state.posts.insert(
                    target,
                    PostModel { deleted: true, ..state.posts[target] },
                ),
                ..state
            }
        } else {
            state
        },
        KindModel::Profile { bio, avatar_cid, display_name } => if state.profile is None || p.seq
            > state.profile->Some_0.0 {
            ChainModel {
                profile: Some((p.seq, ProfileModel { display_name, bio, avatar_cid })),
                ..state
            }
        } else {
            state
        },
        KindModel::Follow { added, removed } => ChainModel {
            following: state.following.union(added.to_set()).difference(removed.to_set()),
            ..state
        },
        KindModel::Reply { .. } => state,
    }
}

/// The state after a list of events.
pub open spec fn chain_fold(events: Seq<(Seq<u8>, EnvelopeModel)>) -> ChainModel
    decreases events.len(),
{
    if events.len() == 0 {
        empty_chain()
    } else {
        chain_step(chain_fold(events.drop_last()), events.last().0, events.last().1)
    }
}

/// The models of a list of events with their CIDs.
pub open spec fn event_pairs(events: Seq<(Cid, EventEnvelope)>) -> Seq<(Seq<u8>, EnvelopeModel)> {
    events.map_values(|e: (Cid, EventEnvelope)| (e.0@, e.1@))
}

proof fn to_set_push(s: Seq<Seq<u8>>, x: Seq<u8>)
    ensures
        s.push(x).to_set() == s.to_set().insert(x),
{
    assert forall|y: Seq<u8>| s.push(x).to_set().contains(y) <==> s.to_set().insert(x).contains(
        y,
    ) by {
        if s.to_set().contains(y) {
            let i = choose|i: int| 0 <= i < s.len() && s[i] == y;
            assert(s.push(x)[i] == y);
        }
        if y == x {
            assert(s.push(x)[s.len() as int] == y);
        }
        if s.push(x).contains(y) {
            let i = choose|i: int| 0 <= i < s.push(x).len() && s.push(x)[i] == y;
            if i < s.len() {
                assert(s[i] == y);
            }
        }
    }
    assert(s.push(x).to_set() =~= s.to_set().insert(x));
}

proof fn to_set_remove(s: Seq<Seq<u8>>, i: int)
    requires
        s.no_duplicates(),
        0 <= i < s.len(),
    ensures
        s.remove(i).to_set() == s.to_set().remove(s[i]),
        s.remove(i).no_duplicates(),
{
    let r = s.remove(i);
    assert forall|y: Seq<u8>| r.to_set().contains(y) <==> s.to_set().remove(s[i]).contains(y) by {
        if r.contains(y) {
            let j = choose|j: int| 0 <= j < r.len() && r[j] == y;
            if j < i {
                assert(s[j] == y);
            } else {
                assert(s[j + 1] == y);
            }
        }
        if s.contains(y) && y != s[i] {
            let j = choose|j: int| 0 <= j < s.len() && s[j] == y;
            if j < i {
                assert(r[j] == y);
            } else {
                assert(r[j - 1] == y);
            }
        }
    }
    assert(r.to_set() =~= s.to_set().remove(s[i]));
}

impl ChainState {
    /// No post and no account followed occurs twice.
    pub open spec fn wf(&self) -> bool {
        keys_unique(post_pairs(self.posts@)) && key_views(self.following@).no_duplicates()
    }

    fn find_post(&self, cid: &Cid) -> (res: Option<usize>)
        requires
            self.wf(),
        ensures
            match res {
                Some(i) => i < self.posts@.len() && self.posts@[i as int].cid@ == cid@
                    && self@.posts.dom().contains(cid@) && self@.posts[cid@]
                    == self.posts@[i as int]@,
                None => !self@.posts.dom().contains(cid@),
            },
    {
        let ghost pairs = post_pairs(self.posts@);
        let mut i: usize = 0;
        while i < self.posts.len()
            invariant
                i <= self.posts@.len(),
                self.wf(),
                pairs == post_pairs(self.posts@),
                forall|j: int| 0 <= j < i ==> (#[trigger] pairs[j]).0 != cid@,
            decreases self.posts@.len() - i,
        {
            if self.posts[i].cid.same(cid) {
                proof {
                    pairs_map_index(pairs, i as int);
                }
                return Some(i);
            }
            assert(pairs[i as int].0 != cid@);
            i += 1;
        }
        proof {
            pairs_map_contains(pairs, cid@);
        }
        None
    }

    /// The post that an event made.
    pub fn post(&self, cid: &Cid) -> (res: Option<&PostEntry>)
        requires
            self.wf(),
        ensures
            match res {
                Some(p) => self@.posts.dom().contains(cid@) && p@ == self@.posts[cid@],
                None => !self@.posts.dom().contains(cid@),
            },
    {
        match self.find_post(cid) {
            Some(i) => Some(&self.posts[i]),
            None => None,
        }
    }

    fn put_post(&mut self, entry: PostEntry)
        requires
            old(self).wf(),
        ensures
            final(self).wf(),
            final(self)@ == (ChainModel {
                posts: old(self)@.posts.insert(entry.cid@, entry@),
                ..old(self)@
            }),
    {
        let ghost before = post_pairs(self.posts@);
        match self.find_post(&entry.cid) {
            Some(i) => {
                proof {
                    pairs_map_update(before, i as int, entry@);
                }
                self.posts[i] = entry;
                assert(post_pairs(self.posts@) =~= before.update(
                    i as int,
                    (before[i as int].0, entry@),
                ));
            },
            None => {
                proof {
                    pairs_map_contains(before, entry.cid@);
                    pairs_map_push(before, entry.cid@, entry@);
                }
                self.posts.push(entry);
                assert(post_pairs(self.posts@) =~= before.push((entry.cid@, entry@)));
                proof {
                    let after = post_pairs(self.posts@);
                    assert forall|a: int, b: int| 0 <= a < b < after.len() implies (
                    #[trigger] after[a]).0 != (#[trigger] after[b]).0 by {
                        assert(after[a] == before[a]);
                        if b < before.len() {
                            assert(after[b] == before[b]);
                        }
                    }
                }
            },
        }
    }

    fn find_following(&self, key: &[u8; 32]) -> (res: Option<usize>)
        ensures
            match res {
                Some(i) => i < self.following@.len() && self.following@[i as int]@ == key@,
                None => !self@.following.contains(key@),
            },
    {
        let mut i: usize = 0;
        while i < self.following.len()
            invariant
                i <= self.following@.len(),
                forall|j: int| 0 <= j < i ==> key_views(self.following@)[j] != key@,
            decreases self.following@.len() - i,
        {
            if bytes_eq(self.following[i].as_slice(), key.as_slice()) {
                return Some(i);
            }
            i += 1;
        }
        None
    }

    fn follow(&mut self, key: &[u8; 32])
        requires
            old(self).wf(),
        ensures
            final(self).wf(),
            final(self)@ == (ChainModel {
                following: old(self)@.following.insert(key@),
                ..old(self)@
            }),
    {
        let ghost before = key_views(self.following@);
        match self.find_following(key) {
            Some(i) => {
                assert(before[i as int] == key@);
                assert(before.to_set().contains(key@));
                assert(self@.following =~= self@.following.insert(key@));
            },
            None => {
                self.following.push(*key);
                proof {
                    let after = key_views(self.following@);
                    assert(after =~= before.push(key@));
                    to_set_push(before, key@);
                    assert forall|a: int, b: int|
                        0 <= a < after.len() && 0 <= b < after.len() && a != b implies after[a]
                        != after[b] by {
                        assert(before.to_set().contains(key@) <==> before.contains(key@));
                        if a < before.len() && b < before.len() {
                            assert(before[a] != before[b]);
                        }
                    }
                }
            },
        }
    }

    fn unfollow(&mut self, key: &[u8; 32])
        requires
            old(self).wf(),
        ensures
            final(self).wf(),
            final(self)@ == (ChainModel {
                following: old(self)@.following.remove(key@),
                ..old(self)@
            }),
    {
        let ghost before = key_views(self.following@);
        match self.find_following(key) {
            Some(i) => {
                self.following.remove(i);
                proof {
                    assert(key_views(self.following@) =~= before.remove(i as int));
                    to_set_remove(before, i as int);
                }
            },
            None => {
                assert(self@.following =~= self@.following.remove(key@));
            },
        }
    }

    fn apply(&mut self, cid: &Cid, envelope: &EventEnvelope)
        requires
            old(self).wf(),
        ensures
            final(self).wf(),
            final(self)@ == chain_step(old(self)@, cid@, envelope@),
    {
        let seq: u64 = envelope.payload.seq;
        let ghost start = self@;
        match &envelope.payload.kind {
            EventKind::Post { text } => {
                self.put_post(
                    PostEntry {
                        cid: cid.clone(),
                        author: envelope.payload.author,
                        text: text.clone(),
                        timestamp: envelope.payload.timestamp,
                        deleted: false,
                        latest_edit_seq: seq,
                    },
                );
            },
            EventKind::Edit { text, target } => {
                if let Some(i) = self.find_post(target) {
                    let entry = &self.posts[i];
                    if bytes_eq(entry.author.as_slice(), envelope.payload.author.as_slice()) && seq
                        > entry.latest_edit_seq {
                        let changed = PostEntry {
                            cid: entry.cid.clone(),
                            author: entry.author,
                            text: text.clone(),
                            timestamp: entry.timestamp,
                            deleted: entry.deleted,
                            latest_edit_seq: seq,
                        };
                        self.put_post(changed);
                    }
                }
            },
            EventKind::Delete { target } => {
                if let Some(i) = self.find_post(target) {
                    let entry = &self.posts[i];
                    if bytes_eq(entry.author.as_slice(), envelope.payload.author.as_slice()) {
                        let changed = PostEntry {
                            cid: entry.cid.clone(),
                            author: entry.author,
                            text: entry.text.clone(),
                            timestamp: entry.timestamp,
                            deleted: true,
                            latest_edit_seq: entry.latest_edit_seq,
                        };
                        self.put_post(changed);
                    }
                }
            },
            EventKind::Profile { bio, avatar_cid, display_name } => {
                let newer = match &self.profile {
                    Some(p) => seq > p.0,
                    None => true,
                };
                if newer {
                    self.profile = Some(
                        (
                            seq,
                            ProfileState {
                                display_name: display_name.clone(),
                                bio: bio.clone(),
                                avatar_cid: clone_optional_cid(avatar_cid),
                            },
                        ),
                    );
                }
            },
            EventKind::Follow { added, removed } => {
                let ghost adds = key_views(added@);
                let ghost removes = key_views(removed@);
                let mut i: usize = 0;
                while i < added.len()
                    invariant
                        i <= added@.len(),
                        adds == key_views(added@),
                        self.wf(),
                        self@ == (ChainModel {
                            following: start.following.union(adds.take(i as int).to_set()),
                            ..start
                        }),
                    decreases added@.len() - i,
                {
                    self.follow(&added[i]);
                    proof {
                        assert(adds.take(i + 1) =~= adds.take(i as int).push(adds[i as int]));
                        to_set_push(adds.take(i as int), adds[i as int]);
                        assert(self@.following =~= start.following.union(
                            adds.take(i + 1).to_set(),
                        ));
                    }
                    i += 1;
                }
                assert(adds.take(i as int) =~= adds);
                let ghost middle = self@;
                let mut j: usize = 0;
                while j < removed.len()
                    invariant
                        j <= removed@.len(),
                        removes == key_views(removed@),
                        self.wf(),
                        self@ == (ChainModel {
                            following: middle.following.difference(
                                removes.take(j as int).to_set(),
                            ),
                            ..middle
                        }),
                    decreases removed@.len() - j,
                {
                    self.unfollow(&removed[j]);
                    proof {
                        assert(removes.take(j + 1) =~= removes.take(j as int).push(
                            removes[j as int],
                        ));
                        to_set_push(removes.take(j as int), removes[j as int]);
                        assert(self@.following =~= middle.following.difference(
                            removes.take(j + 1).to_set(),
                        ));
                    }
                    j += 1;
                }
                assert(removes.take(j as int) =~= removes);
            },
            EventKind::Reply { .. } => {},
        }
    }
}

impl Default for ChainState {
    fn default() -> (res: Self)
        ensures
            res.wf(),
            res@ == empty_chain(),
    {
        let res = ChainState { posts: Vec::new(), profile: None, following: Vec::new() };
        assert(post_pairs(res.posts@).len() == 0);
        assert(res@.following =~= Set::<Seq<u8>>::empty());
        res
    }
}

/// Folds events, in the order of their positions and each with its CID, into the state that
/// they describe.
pub fn fold(events: &[(Cid, EventEnvelope)]) -> (res: ChainState)
    ensures
        res.wf(),
        res@ == chain_fold(event_pairs(events@)),
{
    let ghost pairs = event_pairs(events@);
    let mut state = ChainState::default();
    let mut i: usize = 0;
    assert(pairs.take(0).len() == 0);
    while i < events.len()
        invariant
            i <= events@.len(),
            pairs == event_pairs(events@),
            state.wf(),
            state@ == chain_fold(pairs.take(i as int)),
        decreases events@.len() - i,
    {
        let e = &events[i];
        state.apply(&e.0, &e.1);
        proof {
            assert(pairs.take(i + 1).drop_last() =~= pairs.take(i as int));
            assert(pairs[i as int] == (e.0@, e.1@));
        }
        i += 1;
    }
    assert(pairs.take(i as int) =~= pairs);
    state
}

} // verus!
