//! Key=value mappings and the comma-separated `key=value` parser.
//!
//! The parser splits its input on `,`, splits each segment on the first
//! `=`, and silently drops segments without an `=`. Duplicate keys are
//! resolved last-write-wins. No whitespace is trimmed and no escaping of
//! literal `,` or `=` inside values is offered; that is a documented
//! limitation of the format.

use vstd::prelude::*;
use crate::strutil::str_eq;

verus! {

/// The segments of `s` delimited by `sep`: splitting the empty sequence
/// yields one empty segment.
pub open spec fn split_on(s: Seq<char>, sep: char) -> Seq<Seq<char>>
    decreases s.len(),
{
    if s.len() == 0 {
        seq![Seq::<char>::empty()]
    } else if s[0] == sep {
        seq![Seq::<char>::empty()] + split_on(s.skip(1), sep)
    } else {
        let rest = split_on(s.skip(1), sep);
        seq![seq![s[0]] + rest[0]] + rest.skip(1)
    }
}

/// The key/value pair of one segment: the text before and after the first
/// `=`, or `None` when the segment has no `=`.
pub open spec fn seg_kv(seg: Seq<char>) -> Option<(Seq<char>, Seq<char>)>
    decreases seg.len(),
{
    if seg.len() == 0 {
        None
    } else if seg[0] == '=' {
        Some((Seq::<char>::empty(), seg.skip(1)))
    } else {
        match seg_kv(seg.skip(1)) {
            None => None,
            Some(kv) => Some((seq![seg[0]] + kv.0, kv.1)),
        }
    }
}

/// The map described by a sequence of segments: segments without an `=`
/// contribute nothing, and a later segment overrides an earlier one with
/// the same key.
pub open spec fn kv_map_of(segs: Seq<Seq<char>>) -> Map<Seq<char>, Seq<char>>
    decreases segs.len(),
{
    if segs.len() == 0 {
        Map::empty()
    } else {
        match seg_kv(segs.last()) {
            None => kv_map_of(segs.drop_last()),
            Some(kv) => kv_map_of(segs.drop_last()).insert(kv.0, kv.1),
        }
    }
}

/// What parsing a raw comma-separated `key=value` string yields.
pub open spec fn parse_spec(s: Seq<char>) -> Map<Seq<char>, Seq<char>> {
    kv_map_of(split_on(s, ','))
}

/// The map described by a sequence of key/value pairs, later pairs
/// overriding earlier ones.
pub open spec fn map_of_pairs(es: Seq<(Seq<char>, Seq<char>)>) -> Map<Seq<char>, Seq<char>>
    decreases es.len(),
{
    if es.len() == 0 {
        Map::empty()
    } else {
        map_of_pairs(es.drop_last()).insert(es.last().0, es.last().1)
    }
}

/// A sequence of pairs has pairwise-distinct keys.
pub open spec fn distinct_keys(es: Seq<(Seq<char>, Seq<char>)>) -> bool {
    forall|i: int, j: int| 0 <= i < j < es.len() ==> es[i].0 != es[j].0
}

proof fn lemma_split_nonempty(s: Seq<char>, sep: char)
    ensures
        split_on(s, sep).len() >= 1,
    decreases s.len(),
{
    if s.len() != 0 {
        lemma_split_nonempty(s.skip(1), sep);
    }
}

/// Splitting a sequence that holds no separator yields that one segment.
proof fn lemma_split_no_sep(s: Seq<char>, sep: char)
    requires
        forall|i: int| 0 <= i < s.len() ==> s[i] != sep,
    ensures
        split_on(s, sep) =~= seq![s],
    decreases s.len(),
{
    if s.len() == 0 {
        assert(s =~= Seq::<char>::empty());
    } else {
        assert(forall|i: int| 0 <= i < s.skip(1).len() ==> s.skip(1)[i] != sep);
        lemma_split_no_sep(s.skip(1), sep);
        assert(seq![s[0]] + s.skip(1) =~= s);
        assert(seq![s.skip(1)].skip(1) =~= Seq::<Seq<char>>::empty());
    }
}

/// Splitting at the first separator peels off the text before it.
proof fn lemma_split_sep_at(s: Seq<char>, sep: char, k: int)
    requires
        0 <= k < s.len(),
        s[k] == sep,
        forall|i: int| 0 <= i < k ==> s[i] != sep,
    ensures
        split_on(s, sep) =~= seq![s.take(k)] + split_on(s.skip(k + 1), sep),
    decreases k,
{
    if k == 0 {
        assert(s.take(0) =~= Seq::<char>::empty());
    } else {
        let t = s.skip(1);
        assert(t[k - 1] == sep);
        assert(forall|i: int| 0 <= i < k - 1 ==> t[i] != sep);
        lemma_split_sep_at(t, sep, k - 1);
        lemma_split_nonempty(t.skip(k), sep);
        assert(t.skip(k) =~= s.skip(k + 1));
        let rest = split_on(t, sep);
        assert(rest =~= seq![t.take(k - 1)] + split_on(s.skip(k + 1), sep));
        assert(rest[0] == t.take(k - 1));
        assert(seq![s[0]] + t.take(k - 1) =~= s.take(k));
        assert(rest.skip(1) =~= split_on(s.skip(k + 1), sep));
    }
}

/// A segment without an `=` yields no pair.
proof fn lemma_seg_kv_no_eq(seg: Seq<char>)
    requires
        forall|i: int| 0 <= i < seg.len() ==> seg[i] != '=',
    ensures
        seg_kv(seg) is None,
    decreases seg.len(),
{
    if seg.len() != 0 {
        assert(forall|i: int| 0 <= i < seg.skip(1).len() ==> seg.skip(1)[i] != '=');
        lemma_seg_kv_no_eq(seg.skip(1));
    }
}

/// A segment whose first `=` stands at `k` yields the text before and
/// after it.
proof fn lemma_seg_kv_first_eq(seg: Seq<char>, k: int)
    requires
        0 <= k < seg.len(),
        seg[k] == '=',
        forall|i: int| 0 <= i < k ==> seg[i] != '=',
    ensures
        seg_kv(seg) == Some((seg.take(k), seg.skip(k + 1))),
    decreases k,
{
    if k == 0 {
        assert(seg.take(0) =~= Seq::<char>::empty());
    } else {
        let t = seg.skip(1);
        assert(t[k - 1] == '=');
        assert(forall|i: int| 0 <= i < k - 1 ==> t[i] != '=');
        lemma_seg_kv_first_eq(t, k - 1);
        assert(seq![seg[0]] + t.take(k - 1) =~= seg.take(k));
        assert(t.skip(k) =~= seg.skip(k + 1));
    }
}

proof fn lemma_kv_map_contains(segs: Seq<Seq<char>>, k: Seq<char>)
    ensures
        kv_map_of(segs).contains_key(k) <==> exists|i: int|
            0 <= i < segs.len() && seg_kv(segs[i]) is Some && (seg_kv(segs[i])->0).0 == k,
    decreases segs.len(),
{
    if segs.len() == 0 {
    } else {
        let pre = segs.drop_last();
        lemma_kv_map_contains(pre, k);
        if seg_kv(segs.last()) is Some && (seg_kv(segs.last())->0).0 == k {
            let w = segs.len() - 1;
            assert(seg_kv(segs[w]) is Some && (seg_kv(segs[w])->0).0 == k);
        } else {
            if kv_map_of(segs).contains_key(k) {
                let w = choose|i: int|
                    0 <= i < pre.len() && seg_kv(pre[i]) is Some && (seg_kv(pre[i])->0).0 == k;
                assert(pre[w] == segs[w]);
                assert(seg_kv(segs[w]) is Some && (seg_kv(segs[w])->0).0 == k);
            }
            if exists|i: int|
                0 <= i < segs.len() && seg_kv(segs[i]) is Some && (seg_kv(segs[i])->0).0 == k {
                let w = choose|i: int|
                    0 <= i < segs.len() && seg_kv(segs[i]) is Some && (seg_kv(segs[i])->0).0 == k;
                assert(w < pre.len());
                assert(pre[w] == segs[w]);
                assert(seg_kv(pre[w]) is Some && (seg_kv(pre[w])->0).0 == k);
            }
        }
    }
}

proof fn lemma_kv_map_last(segs: Seq<Seq<char>>, i: int)
    requires
        0 <= i < segs.len(),
        seg_kv(segs[i]) is Some,
        forall|j: int|
            i < j < segs.len() ==> (seg_kv(segs[j]) is Some ==> (seg_kv(segs[j])->0).0 != (seg_kv(
                segs[i],
            )->0).0),
    ensures
        kv_map_of(segs).contains_key((seg_kv(segs[i])->0).0),
        kv_map_of(segs)[(seg_kv(segs[i])->0).0] == (seg_kv(segs[i])->0).1,
    decreases segs.len(),
{
    if i == segs.len() - 1 {
    } else {
        assert(segs.drop_last()[i] == segs[i]);
        assert(forall|j: int| i < j < segs.drop_last().len() ==> segs.drop_last()[j] == segs[j]);
        lemma_kv_map_last(segs.drop_last(), i);
    }
}

/// Law: a key is in the parsed mapping exactly when some segment of the
/// input carries an `=` and names that key before it.
pub proof fn lemma_parse_key_present(s: Seq<char>, k: Seq<char>)
    ensures
        parse_spec(s).contains_key(k) <==> exists|i: int|
            0 <= i < split_on(s, ',').len() && seg_kv(split_on(s, ',')[i]) is Some && (seg_kv(
                split_on(s, ',')[i],
            )->0).0 == k,
{
    lemma_kv_map_contains(split_on(s, ','), k);
}

/// Law: each key of the parsed mapping holds the value of the last
/// segment of the input that carries that key.
pub proof fn lemma_parse_last_wins(s: Seq<char>, i: int)
    requires
        0 <= i < split_on(s, ',').len(),
        seg_kv(split_on(s, ',')[i]) is Some,
        forall|j: int|
            i < j < split_on(s, ',').len() ==> (seg_kv(split_on(s, ',')[j]) is Some ==> (seg_kv(
                split_on(s, ',')[j],
            )->0).0 != (seg_kv(split_on(s, ',')[i])->0).0),
    ensures
        parse_spec(s).contains_key((seg_kv(split_on(s, ',')[i])->0).0),
        parse_spec(s)[(seg_kv(split_on(s, ',')[i])->0).0] == (seg_kv(split_on(s, ',')[i])->0).1,
{
    lemma_kv_map_last(split_on(s, ','), i);
}

/// A key is in the map of a pair sequence exactly when some pair carries it.
pub proof fn lemma_map_of_pairs_contains(es: Seq<(Seq<char>, Seq<char>)>, k: Seq<char>)
    ensures
        map_of_pairs(es).contains_key(k) <==> exists|i: int| 0 <= i < es.len() && es[i].0 == k,
    decreases es.len(),
{
    if es.len() == 0 {
    } else {
        lemma_map_of_pairs_contains(es.drop_last(), k);
        if es.last().0 == k {
            assert(es[es.len() - 1].0 == k);
        } else {
            if map_of_pairs(es).contains_key(k) {
                let i = choose|i: int| 0 <= i < es.drop_last().len() && es.drop_last()[i].0 == k;
                assert(es[i].0 == k);
            }
            if exists|i: int| 0 <= i < es.len() && es[i].0 == k {
                let i = choose|i: int| 0 <= i < es.len() && es[i].0 == k;
                assert(es.drop_last()[i].0 == k);
            }
        }
    }
}

/// The value under a key is the one of the last pair that carries the key.
pub proof fn lemma_map_of_pairs_last(es: Seq<(Seq<char>, Seq<char>)>, i: int)
    requires
        0 <= i < es.len(),
        forall|j: int| i < j < es.len() ==> es[j].0 != es[i].0,
    ensures
        map_of_pairs(es).contains_key(es[i].0),
        map_of_pairs(es)[es[i].0] == es[i].1,
    decreases es.len(),
{
    if i == es.len() - 1 {
    } else {
        assert(es.drop_last()[i] == es[i]);
        assert(forall|j: int| i < j < es.drop_last().len() ==> es.drop_last()[j] == es[j]);
        lemma_map_of_pairs_last(es.drop_last(), i);
        assert(es.last().0 != es[i].0);
    }
}

/// With pairwise-distinct keys, the map has exactly one entry per pair.
pub proof fn lemma_map_of_pairs_len(es: Seq<(Seq<char>, Seq<char>)>)
    requires
        distinct_keys(es),
    ensures
        map_of_pairs(es).dom().finite(),
        map_of_pairs(es).dom().len() == es.len(),
    decreases es.len(),
{
    if es.len() == 0 {
        assert(map_of_pairs(es).dom() =~= Set::<Seq<char>>::empty());
    } else {
        assert(distinct_keys(es.drop_last()));
        lemma_map_of_pairs_len(es.drop_last());
        lemma_map_of_pairs_contains(es.drop_last(), es.last().0);
        assert(forall|j: int| 0 <= j < es.len() - 1 ==> es[j].0 != es.last().0);
        assert(!map_of_pairs(es.drop_last()).contains_key(es.last().0));
        assert(map_of_pairs(es).dom() =~= map_of_pairs(es.drop_last()).dom().insert(
            es.last().0,
        ));
    }
}

/// A mapping from string keys to string values with unique keys.
/// Keys keep the order in which they were first inserted; inserting an
/// existing key overwrites its value in place.
pub struct Mapping {
    entries: Vec<(String, String)>,
}

impl Mapping {
    /// The entries in order, as sequences of characters.
    pub closed spec fn entries_view(&self) -> Seq<(Seq<char>, Seq<char>)> {
        self.entries@.map_values(|e: (String, String)| (e.0@, e.1@))
    }

    /// The abstract map this value represents.
    pub closed spec fn view(&self) -> Map<Seq<char>, Seq<char>> {
        map_of_pairs(self.entries_view())
    }

    /// Well-formedness: no two entries share a key.
    pub open spec fn wf(&self) -> bool {
        distinct_keys(self.entries_view())
    }

    /// An empty mapping.
    pub fn new() -> (m: Mapping)
        ensures
            m.wf(),
            m@ == Map::<Seq<char>, Seq<char>>::empty(),
            m.entries_view() == Seq::<(Seq<char>, Seq<char>)>::empty(),
    {
        let m = Mapping { entries: Vec::new() };
        proof {
            assert(m.entries_view() =~= Seq::<(Seq<char>, Seq<char>)>::empty());
        }
        m
    }

    /// The number of entries; with unique keys, also the size of the map.
    pub fn len(&self) -> (n: usize)
        ensures
            n == self.entries_view().len(),
            self.wf() ==> n == self@.dom().len(),
    {
        proof {
            if self.wf() {
                lemma_map_of_pairs_len(self.entries_view());
            }
        }
        self.entries.len()
    }

    /// Insert a key/value pair; an existing key is overwritten in place.
    pub fn insert(&mut self, key: String, value: String)
        requires
            old(self).wf(),
        ensures
            final(self).wf(),
            final(self)@ == old(self)@.insert(key@, value@),
            old(self)@.contains_key(key@) ==> exists|i: int|
                0 <= i < old(self).entries_view().len() && old(self).entries_view()[i].0 == key@
                    && final(self).entries_view() == old(self).entries_view().update(
                    i,
                    (key@, value@),
                ),
            !old(self)@.contains_key(key@) ==> final(self).entries_view() == old(
                self,
            ).entries_view().push((key@, value@)),
    {
        let n = self.entries.len();
        let mut i: usize = 0;
        while i < n
            invariant
                old(self).wf(),
                n == self.entries.len(),
                i <= n,
                self == old(self),
                forall|j: int| 0 <= j < i ==> self.entries_view()[j].0 != key@,
            decreases n - i,
        {
            if str_eq(self.entries[i].0.as_str(), key.as_str()) {
                proof {
                    assert(self.entries_view()[i as int].0 == key@);
                }
                let _ = self.entries.remove(i);
                self.entries.insert(i, (key, value));
                proof {
                    let oldv = old(self).entries_view();
                    let newv = self.entries_view();
                    assert(oldv[i as int].0 == key@);
                    let ki = oldv[i as int].0;
                    assert forall|j: int| i < j < oldv.len() implies oldv[j].0 != ki by {
                        assert(oldv[i as int].0 != oldv[j].0);
                    }
                    assert(newv =~= oldv.update(i as int, (oldv[i as int].0, value@)));
                    assert(newv == oldv.update(i as int, (key@, value@)));
                    lemma_map_of_pairs_update(oldv, i as int, value@);
                    lemma_map_of_pairs_contains(oldv, key@);
                    assert forall|a: int, b: int| 0 <= a < b < newv.len() implies newv[a].0
                        != newv[b].0 by {
                        assert(newv[a].0 == oldv[a].0);
                        assert(newv[b].0 == oldv[b].0);
                        assert(oldv[a].0 != oldv[b].0);
                    }
                }
                return ;
            }
            i += 1;
        }
        self.entries.push((key, value));
        proof {
            let oldv = old(self).entries_view();
            let newv = self.entries_view();
            assert(newv =~= oldv.push((key@, value@)));
            assert(newv.drop_last() =~= oldv);
            assert(newv.last() == (key@, value@));
            lemma_map_of_pairs_contains(oldv, key@);
        }
    }

    /// Law: a mapping's abstract map is the fold of its entry sequence,
    /// later pairs overriding earlier ones (with unique keys they never
    /// collide). This ties what `entries` hands out to the map the other
    /// contracts speak of.
    pub proof fn lemma_view_is_fold_of_entries(&self)
        ensures
            self@ == map_of_pairs(self.entries_view()),
    {
    }

    /// The entries, in first-insertion order.
    pub fn entries(&self) -> (r: &Vec<(String, String)>)
        ensures
            r@.len() == self.entries_view().len(),
            forall|i: int|
                0 <= i < r@.len() ==> r@[i].0@ == self.entries_view()[i].0 && r@[i].1@
                    == self.entries_view()[i].1,
    {
        &self.entries
    }

    /// Look a key up: `Some` exactly when the key is in the map, with its
    /// value.
    pub fn get(&self, key: &str) -> (r: Option<&String>)
        requires
            self.wf(),
        ensures
            match r {
                Some(v) => self@.contains_key(key@) && v@ == self@[key@],
                None => !self@.contains_key(key@),
            },
    {
        let n = self.entries.len();
        let mut i: usize = 0;
        while i < n
            invariant
                self.wf(),
                n == self.entries.len(),
                i <= n,
                forall|j: int| 0 <= j < i ==> self.entries_view()[j].0 != key@,
            decreases n - i,
        {
            if str_eq(self.entries[i].0.as_str(), key) {
                proof {
                    let es = self.entries_view();
                    assert(es[i as int].0 == key@);
                    assert(forall|j: int| i < j < es.len() ==> es[j].0 != es[i as int].0);
                    lemma_map_of_pairs_last(es, i as int);
                }
                return Some(&self.entries[i].1);
            }
            i += 1;
        }
        proof {
            lemma_map_of_pairs_contains(self.entries_view(), key@);
        }
        None
    }
}

/// Updating the value of the pair at `i`, whose key no later pair carries,
/// only rebinds that key.
proof fn lemma_map_of_pairs_update(es: Seq<(Seq<char>, Seq<char>)>, i: int, v: Seq<char>)
    requires
        0 <= i < es.len(),
        forall|j: int| i < j < es.len() ==> es[j].0 != es[i].0,
    ensures
        map_of_pairs(es.update(i, (es[i].0, v))) == map_of_pairs(es).insert(es[i].0, v),
    decreases es.len(),
{
    let es2 = es.update(i, (es[i].0, v));
    if i == es.len() - 1 {
        assert(es2.drop_last() =~= es.drop_last());
        assert(es2.last() == (es[i].0, v));
        assert(map_of_pairs(es2) =~= map_of_pairs(es).insert(es[i].0, v));
    } else {
        assert(es2.drop_last() =~= es.drop_last().update(i, (es[i].0, v)));
        assert(es.drop_last()[i] == es[i]);
        assert(forall|j: int| i < j < es.drop_last().len() ==> es.drop_last()[j] == es[j]);
        lemma_map_of_pairs_update(es.drop_last(), i, v);
        assert(es2.last() == es.last());
        assert(es.last().0 != es[i].0);
        assert(map_of_pairs(es2) =~= map_of_pairs(es).insert(es[i].0, v));
    }
}

/// The comma-separated `key=value` parser.
pub struct KeyValueParser;

impl KeyValueParser {
    /// Parse a comma-separated `key=value` string into a mapping.
    ///
    /// Each segment is split on its first `=`; a segment without an `=`
    /// is dropped; a later segment overrides an earlier one with the same
    /// key. This never fails: at worst the mapping is empty.
    pub fn parse(raw: &str) -> (m: Mapping)
        ensures
            m.wf(),
            m@ == parse_spec(raw@),
    {
        let n = raw.unicode_len();
        let mut m = Mapping::new();
        let ghost mut done: Seq<Seq<char>> = Seq::empty();
        let mut start: usize = 0;
        let mut go: bool = true;
        proof {
            assert(raw@.skip(0) =~= raw@);
            assert(done + split_on(raw@, ',') =~= split_on(raw@, ','));
        }
        while go
            invariant
                n == raw@.len(),
                m.wf(),
                go ==> start <= n,
                go ==> split_on(raw@, ',') =~= done + split_on(raw@.skip(start as int), ','),
                !go ==> split_on(raw@, ',') =~= done,
                m@ == kv_map_of(done),
            decreases (if go { 1int } else { 0int }), n - start,
        {
            let ghost tail = raw@.skip(start as int);
            // The segment runs to the first `,` at or after `start`.
            let mut end: usize = start;
            while end < n && raw.get_char(end) != ','
                invariant
                    n == raw@.len(),
                    start <= end <= n,
                    forall|j: int| start <= j < end ==> raw@[j] != ',',
                decreases n - end,
            {
                end += 1;
            }
            let ghost seg = raw@.subrange(start as int, end as int);
            proof {
                assert(forall|j: int| 0 <= j < seg.len() ==> seg[j] == raw@[start + j]);
                if end < n {
                    assert(raw@[end as int] == ',');
                    assert(tail[end - start] == ',');
                    assert(forall|j: int| 0 <= j < end - start ==> tail[j] != ',');
                    lemma_split_sep_at(tail, ',', end - start);
                    assert(tail.take(end - start) =~= seg);
                    assert(tail.skip(end - start + 1) =~= raw@.skip(end + 1));
                } else {
                    assert(forall|j: int| 0 <= j < tail.len() ==> tail[j] != ',');
                    lemma_split_no_sep(tail, ',');
                    assert(tail =~= seg);
                }
            }
            // The first `=` inside the segment, if any.
            let mut p: usize = start;
            while p < end && raw.get_char(p) != '='
                invariant
                    n == raw@.len(),
                    end <= n,
                    start <= p <= end,
                    forall|j: int| start <= j < p ==> raw@[j] != '=',
                decreases end - p,
            {
                p += 1;
            }
            if p < end {
                proof {
                    assert(seg[p - start] == '=');
                    assert(forall|j: int| 0 <= j < p - start ==> seg[j] != '=');
                    lemma_seg_kv_first_eq(seg, p - start);
                    assert(seg.take(p - start) =~= raw@.subrange(start as int, p as int));
                    assert(seg.skip(p - start + 1) =~= raw@.subrange(p + 1, end as int));
                }
                let key = raw.substring_char(start, p).to_owned();
                let value = raw.substring_char(p + 1, end).to_owned();
                m.insert(key, value);
            } else {
                proof {
                    assert(forall|j: int| 0 <= j < seg.len() ==> seg[j] != '=');
                    lemma_seg_kv_no_eq(seg);
                }
            }
            proof {
                let done0 = done;
                done = done.push(seg);
                assert(done.drop_last() =~= done0);
                assert(done.last() == seg);
                if end < n {
                    assert(done + split_on(raw@.skip(end + 1), ',') =~= done0 + split_on(
                        tail,
                        ',',
                    ));
                } else {
                    assert(done =~= done0 + split_on(tail, ','));
                }
            }
            if end < n {
                start = end + 1;
            } else {
                go = false;
            }
        }
        m
    }
}

} // verus!
