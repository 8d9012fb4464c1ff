//! Alert lifecycle: which workspaces have an unacknowledged background-task
//! completion, and in which blink phase each one currently is.

use vstd::prelude::*;

verus! {

/// Outcome and blink phase of one unacknowledged background-task completion.
#[derive(Clone, Copy, Debug, PartialEq, Eq, Structural)]
pub struct TabAlert {
    /// True when the background command exited with code 0.
    pub success: bool,
    /// Blink phase; flipped on every tick so the label alternates colors.
    pub alternate_color: bool,
}

/// `a` with its blink phase toggled.
pub open spec fn flipped(a: TabAlert) -> TabAlert {
    TabAlert { success: a.success, alternate_color: !a.alternate_color }
}

/// The finite map described by an association list, later pairs winning.
pub open spec fn map_of(s: Seq<(usize, TabAlert)>) -> Map<usize, TabAlert>
    decreases s.len(),
{
    if s.len() == 0 {
        Map::empty()
    } else {
        map_of(s.drop_last()).insert(s.last().0, s.last().1)
    }
}

/// No two pairs of the association list share a key.
pub open spec fn distinct_keys(s: Seq<(usize, TabAlert)>) -> bool {
    forall|i: int, j: int| #![trigger s[i], s[j]] 0 <= i < j < s.len() ==> s[i].0 != s[j].0
}

/// Maps workspace positions to pending alerts.
///
/// An entry exists for a position iff that workspace has an unacknowledged
/// background-task completion; entries are removed the moment their
/// workspace is rendered as the active one.
pub struct AlertTracker {
    entries: Vec<(usize, TabAlert)>,
}

impl View for AlertTracker {
    type V = Map<usize, TabAlert>;

    open spec fn view(&self) -> Map<usize, TabAlert> {
        map_of(self.entries_seq())
    }
}

impl AlertTracker {
    /// The underlying association list, in insertion order.  The broadcast
    /// encoding walks this list, so it is part of the public model.
    pub closed spec fn entries_seq(&self) -> Seq<(usize, TabAlert)> {
        self.entries@
    }

    /// Keys are distinct, so the list and the map hold the same information.
    pub open spec fn wf(&self) -> bool {
        distinct_keys(self.entries_seq())
    }

    pub fn new() -> (t: AlertTracker)
        ensures
            t.wf(),
            t.entries_seq() == Seq::<(usize, TabAlert)>::empty(),
            t@ == Map::<usize, TabAlert>::empty(),
    {
        AlertTracker { entries: Vec::new() }
    }

    pub fn is_empty(&self) -> (r: bool)
        requires
            self.wf(),
        ensures
            r == (self.entries_seq().len() == 0),
            r == self@.dom().is_empty(),
    {
        proof {
            if self.entries_seq().len() == 0 {
                assert(self@.dom() =~= Set::<usize>::empty());
            } else {
                let s = self.entries_seq();
                lemma_map_of_found(s, s.len() - 1);
                assert(self@.dom().contains(s.last().0));
            }
        }
        self.entries.len() == 0
    }

    /// The number of pending entries.
    pub fn len(&self) -> (n: usize)
        requires
            self.wf(),
        ensures
            n == self.entries_seq().len(),
            n == self@.dom().len(),
    {
        proof {
            lemma_map_of_dom_len(self.entries_seq());
        }
        self.entries.len()
    }

    /// The pending alert for workspace position `k`, if any.
    pub fn get(&self, k: usize) -> (r: Option<TabAlert>)
        requires
            self.wf(),
        ensures
            match r {
                Some(a) => self@.contains_key(k) && self@[k] == a,
                None => !self@.contains_key(k),
            },
    {
        let n = self.entries.len();
        let mut i: usize = 0;
        while i < n
            invariant
                self.wf(),
                n == self.entries_seq().len(),
                0 <= i <= n,
                forall|j: int| #![trigger self.entries_seq()[j]] 0 <= j < i ==> self.entries_seq()[j].0 != k,
            decreases n - i,
        {
            let (key, alert) = self.entries[i];
            if key == k {
                proof {
                    lemma_map_of_found(self.entries_seq(), i as int);
                }
                return Some(alert);
            }
            i += 1;
        }
        proof {
            lemma_map_of_absent(self.entries_seq(), k);
        }
        None
    }

    /// Remove the entry for `k`, if present.
    pub fn remove(&mut self, k: usize)
        requires
            old(self).wf(),
        ensures
            final(self).wf(),
            final(self)@ == old(self)@.remove(k),
            final(self).entries_seq().len() <= old(self).entries_seq().len(),
            !old(self)@.contains_key(k) ==> final(self).entries_seq() == old(self).entries_seq(),
    {
        let n = self.entries.len();
        let mut i: usize = 0;
        while i < n
            invariant
                self.wf(),
                self == old(self),
                n == self.entries_seq().len(),
                0 <= i <= n,
                forall|j: int| #![trigger self.entries_seq()[j]] 0 <= j < i ==> self.entries_seq()[j].0 != k,
            decreases n - i,
        {
            let (key, _) = self.entries[i];
            if key == k {
                proof {
                    lemma_map_of_found(self.entries_seq(), i as int);
                    lemma_map_of_removed(self.entries_seq(), i as int);
                }
                let _ = self.entries.remove(i);
                return ;
            }
            i += 1;
        }
        proof {
            lemma_map_of_absent(self.entries_seq(), k);
            assert(self@ =~= old(self)@.remove(k));
        }
    }

    /// Record (or overwrite: the latest completion wins) the alert for `k`.
    pub fn insert(&mut self, k: usize, a: TabAlert)
        requires
            old(self).wf(),
        ensures
            final(self).wf(),
            final(self)@ == old(self)@.insert(k, a),
            final(self).entries_seq().len() <= old(self).entries_seq().len() + 1,
            final(self).entries_seq().len() >= 1,
            !old(self)@.contains_key(k) ==> final(self).entries_seq() == old(self).entries_seq().push(
                (k, a),
            ),
    {
        self.remove(k);
        proof {
            let s = self.entries_seq();
            assert forall|j: int| 0 <= j < s.len() implies (#[trigger] s[j]).0 != k by {
                if s[j].0 == k {
                    lemma_map_of_found(s, j);
                }
            }
            assert(distinct_keys(s.push((k, a)))) by {
                let t = s.push((k, a));
                assert forall|i: int, j: int| #![trigger t[i], t[j]] 0 <= i < j < t.len() implies t[i].0 != t[j].0 by {
                    if j < s.len() {
                        assert(t[i] == s[i] && t[j] == s[j]);
                    } else {
                        assert(t[i] == s[i] && t[j] == (k, a));
                    }
                }
            }
            assert(s.push((k, a)).drop_last() =~= s);
        }
        self.entries.push((k, a));
        proof {
            assert(self@ =~= old(self)@.insert(k, a));
        }
    }

    /// The entry at position `i` of the insertion-ordered list.
    pub fn entry_at(&self, i: usize) -> (e: (usize, TabAlert))
        requires
            self.wf(),
            i < self.entries_seq().len(),
        ensures
            e == self.entries_seq()[i as int],
    {
        self.entries[i]
    }

    /// The map view holds a key exactly when some list entry carries it.
    pub proof fn lemma_contains(&self, k: usize)
        requires
            self.wf(),
        ensures
            self@.contains_key(k) <==> exists|j: int|
                0 <= j < self.entries_seq().len() && (#[trigger] self.entries_seq()[j]).0 == k,
    {
        let s = self.entries_seq();
        if exists|j: int| 0 <= j < s.len() && (#[trigger] s[j]).0 == k {
            let j = choose|j: int| 0 <= j < s.len() && (#[trigger] s[j]).0 == k;
            lemma_map_of_found(s, j);
        } else {
            lemma_map_of_absent(s, k);
        }
    }

    /// Toggle the blink phase of every pending entry.
    pub fn tick_phases(&mut self)
        requires
            old(self).wf(),
        ensures
            final(self).wf(),
            final(self).entries_seq().len() == old(self).entries_seq().len(),
            forall|i: int| #![trigger final(self).entries_seq()[i]] 0 <= i < final(self).entries_seq().len()
                ==> final(self).entries_seq()[i] == (old(self).entries_seq()[i].0, flipped(old(self).entries_seq()[i].1)),
            final(self)@.dom() == old(self)@.dom(),
            forall|k: usize| #![trigger final(self)@[k]] old(self)@.contains_key(k)
                ==> final(self)@.contains_key(k) && final(self)@[k] == flipped(old(self)@[k]),
    {
        let n = self.entries.len();
        let mut out: Vec<(usize, TabAlert)> = Vec::new();
        let mut i: usize = 0;
        while i < n
            invariant
                old(self).wf(),
                self == old(self),
                n == self.entries_seq().len(),
                0 <= i <= n,
                out@.len() == i,
                forall|j: int| #![trigger out@[j]] 0 <= j < i
                    ==> out@[j] == (old(self).entries_seq()[j].0, flipped(old(self).entries_seq()[j].1)),
            decreases n - i,
        {
            let (key, alert) = self.entries[i];
            out.push((key, TabAlert { success: alert.success, alternate_color: !alert.alternate_color }));
            i += 1;
        }
        proof {
            lemma_map_of_flipped(self.entries_seq(), out@);
            assert(distinct_keys(out@)) by {
                let s = old(self).entries_seq();
                assert forall|i2: int, j2: int| #![trigger out@[i2], out@[j2]] 0 <= i2 < j2 < out@.len()
                    implies out@[i2].0 != out@[j2].0 by {
                    assert(s[i2].0 != s[j2].0);
                }
            }
        }
        self.entries = out;
    }
}

proof fn lemma_map_of_dom_len(s: Seq<(usize, TabAlert)>)
    requires
        distinct_keys(s),
    ensures
        map_of(s).dom().finite(),
        map_of(s).dom().len() == s.len(),
    decreases s.len(),
{
    if s.len() > 0 {
        let dl = s.drop_last();
        assert(forall|j: int| #![trigger dl[j]] 0 <= j < dl.len() ==> dl[j] == s[j]);
        lemma_map_of_dom_len(dl);
        lemma_map_of_absent_from_distinct(dl, s.last().0, s.len() - 1, s);
        assert(map_of(s).dom() =~= map_of(dl).dom().insert(s.last().0));
        vstd::set::axiom_set_insert_len(map_of(dl).dom(), s.last().0);
    } else {
        assert(map_of(s).dom() =~= Set::<usize>::empty());
    }
}

proof fn lemma_map_of_found(s: Seq<(usize, TabAlert)>, i: int)
    requires
        distinct_keys(s),
        0 <= i < s.len(),
    ensures
        map_of(s).contains_key(s[i].0),
        map_of(s)[s[i].0] == s[i].1,
    decreases s.len(),
{
    if i == s.len() - 1 {
    } else {
        assert(s.drop_last()[i] == s[i]);
        lemma_map_of_found(s.drop_last(), i);
        assert(s.last().0 != s[i].0);
    }
}

proof fn lemma_map_of_absent(s: Seq<(usize, TabAlert)>, k: usize)
    requires
        forall|j: int| #![trigger s[j]] 0 <= j < s.len() ==> s[j].0 != k,
    ensures
        !map_of(s).contains_key(k),
    decreases s.len(),
{
    if s.len() > 0 {
        assert(forall|j: int| #![trigger s.drop_last()[j]] 0 <= j < s.drop_last().len()
            ==> s.drop_last()[j] == s[j]);
        lemma_map_of_absent(s.drop_last(), k);
        assert(s.last() == s[s.len() - 1]);
    }
}

proof fn lemma_map_of_removed(s: Seq<(usize, TabAlert)>, i: int)
    requires
        distinct_keys(s),
        0 <= i < s.len(),
    ensures
        distinct_keys(s.remove(i)),
        map_of(s.remove(i)) == map_of(s).remove(s[i].0),
    decreases s.len(),
{
    let k = s[i].0;
    let t = s.remove(i);
    assert forall|i2: int, j2: int| #![trigger t[i2], t[j2]] 0 <= i2 < j2 < t.len()
        implies t[i2].0 != t[j2].0 by {
        let i3: int = if i2 < i { i2 } else { i2 + 1 };
        let j3: int = if j2 < i { j2 } else { j2 + 1 };
        assert(t[i2] == s[i3] && t[j2] == s[j3]);
    }
    if i == s.len() - 1 {
        assert(t =~= s.drop_last());
        lemma_map_of_absent_from_distinct(s.drop_last(), k, s.len() - 1, s);
        assert(map_of(s.drop_last()) =~= map_of(s).remove(k));
    } else {
        assert(t.drop_last() =~= s.drop_last().remove(i));
        assert(t.last() == s.last());
        lemma_map_of_removed(s.drop_last(), i);
        assert(s.drop_last()[i] == s[i]);
        assert(map_of(t) =~= map_of(s).remove(k)) by {
            assert(map_of(t) == map_of(s.drop_last().remove(i)).insert(s.last().0, s.last().1));
            assert(map_of(s.drop_last().remove(i)) == map_of(s.drop_last()).remove(k));
            assert(s.last().0 != k);
        }
    }
}

/// Helper: a prefix of a distinct-key list never holds the key of a later pair.
proof fn lemma_map_of_absent_from_distinct(
    s: Seq<(usize, TabAlert)>,
    k: usize,
    at: int,
    whole: Seq<(usize, TabAlert)>,
)
    requires
        distinct_keys(whole),
        0 <= at < whole.len(),
        whole[at].0 == k,
        s =~= whole.subrange(0, at),
    ensures
        !map_of(s).contains_key(k),
{
    assert forall|j: int| 0 <= j < s.len() implies (#[trigger] s[j]).0 != k by {
        assert(s[j] == whole[j]);
        assert(whole[j].0 != whole[at].0);
    }
    lemma_map_of_absent(s, k);
}

proof fn lemma_map_of_flipped(s: Seq<(usize, TabAlert)>, t: Seq<(usize, TabAlert)>)
    requires
        distinct_keys(s),
        s.len() == t.len(),
        forall|i: int| #![trigger t[i]] 0 <= i < t.len() ==> t[i] == (s[i].0, flipped(s[i].1)),
    ensures
        map_of(t).dom() == map_of(s).dom(),
        forall|k: usize| #![trigger map_of(t)[k]] map_of(s).contains_key(k)
            ==> map_of(t).contains_key(k) && map_of(t)[k] == flipped(map_of(s)[k]),
    decreases s.len(),
{
    if s.len() > 0 {
        assert(forall|i: int| #![trigger t.drop_last()[i]] 0 <= i < t.drop_last().len()
            ==> t.drop_last()[i] == t[i] && s.drop_last()[i] == s[i]);
        assert(forall|i2: int, j2: int| #![trigger s.drop_last()[i2], s.drop_last()[j2]]
            0 <= i2 < j2 < s.drop_last().len() ==> s.drop_last()[i2].0 != s.drop_last()[j2].0);
        lemma_map_of_flipped(s.drop_last(), t.drop_last());
        assert(t.last() == (s.last().0, flipped(s.last().1)));
        assert(map_of(t).dom() =~= map_of(s).dom());
    } else {
        assert(map_of(t).dom() =~= map_of(s).dom());
    }
}

} // verus!
