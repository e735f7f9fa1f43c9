//! The channels that a configuration works on.

use vstd::prelude::*;
use crate::registry::copy_texts;
use crate::text;
use crate::text::eq;

verus! {

/// The channels of a stream, and those that filters are applied to.
#[derive(Clone, Debug, PartialEq, Eq)]
pub struct Chain {
    /// The number of channels of the stream itself.
    pub channel_count: usize,
    /// The largest number of frames in one buffer.
    pub max_frames: usize,
    /// The names of the stream's channels, followed by those of auxiliary ones.
    pub all_names: Vec<String>,
    /// The names of the channels that filters are applied to.
    pub current_names: Vec<String>,
}

/// The contents of a chain.
pub struct ChainView {
    pub channel_count: usize,
    pub max_frames: usize,
    pub all_names: Seq<Seq<char>>,
    pub current_names: Seq<Seq<char>>,
}

impl View for Chain {
    type V = ChainView;

    open spec fn view(&self) -> ChainView {
        ChainView {
            channel_count: self.channel_count,
            max_frames: self.max_frames,
            all_names: text::texts(self.all_names@),
            current_names: text::texts(self.current_names@),
        }
    }
}

/// The channels that were selected at some time.
#[derive(Clone, Debug, PartialEq, Eq)]
pub struct ChannelSnapshot {
    pub names: Vec<String>,
}

/// The position of the first of some names.
pub open spec fn index_of_name(names: Seq<Seq<char>>, name: Seq<char>) -> Option<int>
    decreases names.len(),
{
    if names.len() == 0 {
        None
    } else {
        match index_of_name(names.drop_last(), name) {
            Some(i) => Some(i),
            None => if names.last() == name {
                Some(names.len() - 1)
            } else {
                None
            },
        }
    }
}

/// The positions of some names among all; names that are not there have none.
pub open spec fn channel_map(all: Seq<Seq<char>>, names: Seq<Seq<char>>) -> Seq<int>
    decreases names.len(),
{
    if names.len() == 0 {
        Seq::empty()
    } else {
        let rest = channel_map(all, names.drop_last());
        match index_of_name(all, names.last()) {
            Some(i) => rest.push(i),
            None => rest,
        }
    }
}

/// The names of channels once some are made sure of: those that are not there are
/// added at the end.
pub open spec fn with_channels(all: Seq<Seq<char>>, names: Seq<Seq<char>>) -> Seq<Seq<char>>
    decreases names.len(),
{
    if names.len() == 0 {
        all
    } else {
        let rest = with_channels(all, names.drop_last());
        if rest.contains(names.last()) {
            rest
        } else {
            rest.push(names.last())
        }
    }
}

proof fn lemma_index_of_name(names: Seq<Seq<char>>, name: Seq<char>)
    ensures
        index_of_name(names, name) is Some == names.contains(name),
        index_of_name(names, name) matches Some(i) ==> 0 <= i < names.len() && names[i] == name,
    decreases names.len(),
{
    if names.len() > 0 {
        let t = names.drop_last();
        lemma_index_of_name(t, name);
        if t.contains(name) {
            let k = choose|k: int| 0 <= k < t.len() && t[k] == name;
            assert(names[k] == name);
        }
        if names.contains(name) && !t.contains(name) {
            let k = choose|k: int| 0 <= k < names.len() && names[k] == name;
            if k < t.len() {
                assert(t[k] == name);
            }
        }
        if names.last() == name {
            assert(names[names.len() - 1] == name);
        }
    }
}

impl Chain {
    /// A chain whose channels are all selected.
    pub fn new(channel_count: usize, max_frames: usize, names: Vec<String>) -> (r: Chain)
        ensures
            r@ == (ChainView {
                channel_count,
                max_frames,
                all_names: text::texts(names@),
                current_names: text::texts(names@),
            }),
    {
        let current_names = copy_texts(names.as_slice());
        Chain { channel_count, max_frames, all_names: names, current_names }
    }

    /// The names of all channels.
    pub fn all_channel_names(&self) -> (r: &[String])
        ensures
            text::texts(r@) == self@.all_names,
    {
        self.all_names.as_slice()
    }

    /// The names of the selected channels.
    pub fn current_channel_names(&self) -> (r: &[String])
        ensures
            text::texts(r@) == self@.current_names,
    {
        self.current_names.as_slice()
    }

    /// Selects channels.
    pub fn set_current_channel_names(&mut self, names: Vec<String>)
        ensures
            final(self)@ == (ChainView { current_names: text::texts(names@), ..old(self)@ }),
    {
        self.current_names = names;
    }

    /// The position of a channel.
    pub fn channel_index(&self, name: &str) -> (r: Option<usize>)
        ensures
            index_of_name(self@.all_names, name@) == (match r {
                Some(i) => Some(i as int),
                None => None,
            }),
    {
        let ghost all = self@.all_names;
        let mut i: usize = 0;
        assert(all.take(0) =~= Seq::empty());
        let mut found: Option<usize> = None;
        while i < self.all_names.len()
            invariant
                i <= self.all_names.len(),
                all == self@.all_names,
                index_of_name(all.take(i as int), name@) == (match found {
                    Some(n) => Some(n as int),
                    None => None,
                }),
            decreases self.all_names.len() - i,
        {
            let ghost t = all.take(i + 1);
            assert(t.drop_last() =~= all.take(i as int));
            assert(t.last() == self.all_names@[i as int]@);
            if found.is_none() && eq(self.all_names[i].as_str(), name) {
                found = Some(i);
            }
            i += 1;
        }
        assert(all.take(i as int) =~= all);
        found
    }

    /// Adds an auxiliary channel unless there is a channel of that name.
    pub fn ensure_channel_exists(&mut self, name: &str)
        ensures
            final(self)@ == (ChainView {
                all_names: with_channels(old(self)@.all_names, seq![name@]),
                ..old(self)@
            }),
    {
        let ghost before = self@.all_names;
        proof {
            lemma_index_of_name(before, name@);
            let one = seq![name@];
            assert(one.drop_last() =~= Seq::empty());
            assert(one.last() == name@);
            assert(with_channels(before, one.drop_last()) == before);
        }
        if self.channel_index(name).is_none() {
            self.all_names.push(name.to_owned());
            assert(self@.all_names =~= before.push(name@));
        }
    }

    /// The positions of the selected channels.
    pub fn resolve_channel_map(&self) -> (r: Vec<usize>)
        ensures
            r@.map_values(|i: usize| i as int) == channel_map(
                self@.all_names,
                self@.current_names,
            ),
    {
        let ghost names = self@.current_names;
        let mut out: Vec<usize> = Vec::new();
        let mut i: usize = 0;
        assert(names.take(0) =~= Seq::empty());
        assert(out@.map_values(|i: usize| i as int) =~= Seq::empty());
        while i < self.current_names.len()
            invariant
                i <= self.current_names.len(),
                names == self@.current_names,
                out@.map_values(|i: usize| i as int) == channel_map(
                    self@.all_names,
                    names.take(i as int),
                ),
            decreases self.current_names.len() - i,
        {
            let ghost t = names.take(i + 1);
            let ghost before = out@.map_values(|i: usize| i as int);
            assert(t.drop_last() =~= names.take(i as int));
            assert(t.last() == self.current_names@[i as int]@);
            match self.channel_index(self.current_names[i].as_str()) {
                Some(n) => {
                    out.push(n);
                    assert(out@.map_values(|i: usize| i as int) =~= before.push(n as int));
                },
                None => {},
            }
            i += 1;
        }
        assert(names.take(i as int) =~= names);
        out
    }

    /// The selection of channels, to be restored later.
    pub fn save_channel_snapshot(&self) -> (r: ChannelSnapshot)
        ensures
            text::texts(r.names@) == self@.current_names,
    {
        ChannelSnapshot { names: copy_texts(self.current_names.as_slice()) }
    }

    /// Restores a selection of channels.
    pub fn restore_channel_snapshot(&mut self, snapshot: ChannelSnapshot)
        ensures
            final(self)@ == (ChainView {
                current_names: text::texts(snapshot.names@),
                ..old(self)@
            }),
    {
        self.current_names = snapshot.names;
    }
}

/// Channels that were made sure of are there, and every channel stays where it
/// was.
pub proof fn law_channels_exist(all: Seq<Seq<char>>, names: Seq<Seq<char>>)
    ensures
        all.is_prefix_of(with_channels(all, names)),
        forall|i: int| 0 <= i < names.len() ==> with_channels(all, names).contains(#[trigger] names[i]),
    decreases names.len(),
{
    let after = with_channels(all, names);
    if names.len() > 0 {
        let t = names.drop_last();
        let rest = with_channels(all, t);
        law_channels_exist(all, t);
        assert(all =~= rest.subrange(0, all.len() as int));
        assert(all =~= after.subrange(0, all.len() as int));
        assert forall|i: int| 0 <= i < names.len() implies after.contains(#[trigger] names[i]) by {
            if i < t.len() {
                assert(t[i] == names[i]);
                let k = choose|k: int| 0 <= k < rest.len() && rest[k] == names[i];
                assert(after[k] == names[i]);
            } else if !rest.contains(names.last()) {
                assert(after[after.len() - 1] == names[i]);
            }
        }
    } else {
        assert(all =~= after.subrange(0, all.len() as int));
    }
}

/// The position of a name is the first one where it stands.
pub proof fn law_channel_index(names: Seq<Seq<char>>, name: Seq<char>)
    ensures
        match index_of_name(names, name) {
            Some(i) => 0 <= i < names.len() && names[i] == name && forall|j: int|
                0 <= j < i ==> (#[trigger] names[j]) != name,
            None => !names.contains(name),
        },
    decreases names.len(),
{
    lemma_index_of_name(names, name);
    if names.len() > 0 {
        let t = names.drop_last();
        law_channel_index(t, name);
        match index_of_name(names, name) {
            Some(i) => {
                assert forall|j: int| 0 <= j < i implies (#[trigger] names[j]) != name by {
                    assert(t[j] == names[j]);
                    if names[j] == name {
                        assert(t.contains(name));
                        lemma_index_of_name(t, name);
                    }
                }
            },
            None => {},
        }
    }
}

/// Where every selected channel is there, the map has a position for each, in the order
/// of the selection, and the channel of the name stands there.
pub proof fn law_channel_map(all: Seq<Seq<char>>, names: Seq<Seq<char>>)
    requires
        forall|i: int| 0 <= i < names.len() ==> all.contains(#[trigger] names[i]),
    ensures
        channel_map(all, names).len() == names.len(),
        forall|i: int|
            0 <= i < names.len() ==> {
                let k = #[trigger] channel_map(all, names)[i];
                0 <= k < all.len() && all[k] == names[i]
            },
    decreases names.len(),
{
    if names.len() > 0 {
        let t = names.drop_last();
        assert forall|i: int| 0 <= i < t.len() implies all.contains(#[trigger] t[i]) by {
            assert(t[i] == names[i]);
        }
        law_channel_map(all, t);
        assert(all.contains(names[names.len() - 1]));
        lemma_index_of_name(all, names.last());
        let rest = channel_map(all, t);
        let map = channel_map(all, names);
        assert forall|i: int| 0 <= i < names.len() implies ({
            let k = #[trigger] map[i];
            0 <= k < all.len() && all[k] == names[i]
        }) by {
            if i < t.len() {
                assert(map[i] == rest[i]);
                assert(t[i] == names[i]);
            }
        }
    }
}

/// Making sure of channels adds none but those asked for, and none twice: every channel
/// was there before or is one of them, and channels told apart stay so.
pub proof fn law_no_other_channels(all: Seq<Seq<char>>, names: Seq<Seq<char>>)
    ensures
        forall|k: int|
            0 <= k < with_channels(all, names).len() ==> all.contains(
                #[trigger] with_channels(all, names)[k],
            ) || names.contains(with_channels(all, names)[k]),
        all.no_duplicates() ==> with_channels(all, names).no_duplicates(),
    decreases names.len(),
{
    if names.len() > 0 {
        let t = names.drop_last();
        let rest = with_channels(all, t);
        let after = with_channels(all, names);
        law_no_other_channels(all, t);
        assert(names[names.len() - 1] == names.last());
        assert forall|k: int| 0 <= k < after.len() implies all.contains(#[trigger] after[k])
            || names.contains(after[k]) by {
            if k < rest.len() {
                assert(after[k] == rest[k]);
                if t.contains(rest[k]) {
                    let j = choose|j: int| 0 <= j < t.len() && t[j] == rest[k];
                    assert(names[j] == rest[k]);
                }
            }
        }
        if all.no_duplicates() && !rest.contains(names.last()) {
            assert forall|i: int, j: int| 0 <= i < j < after.len() implies after[i] != after[j] by {
                assert(after[i] == rest[i]);
                if j < rest.len() {
                    assert(after[j] == rest[j]);
                }
            }
        }
    }
}

} // verus!
