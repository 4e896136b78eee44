//! Content-addressable fingerprints for snapshot reuse.
//!
//! A fingerprint identifies a task execution: when the task's code, its
//! configuration and the fingerprints of all its upstream tasks are the same,
//! the fingerprint is the same and the execution can be skipped.

use vstd::prelude::*;
use vstd::std_specs::hash::DefaultHasherAdditionalSpecFns;
use vstd::string::StringSliceAdditionalSpecFns;
use std::collections::hash_map::DefaultHasher;
use std::hash::Hasher;
use crate::text::{chars_of, owned, str_eq, string_of};

verus! {

/// A content-addressable fingerprint: a 64-bit SipHash of content, config
/// and upstream fingerprints, written as sixteen lower-case hex digits.
#[derive(Debug, Clone, PartialEq, Eq, Hash)]
pub struct Fingerprint(pub String);

/// Code-point order on texts, the order `Ord for String` gives (UTF-8 keeps
/// the order of code points).
pub open spec fn text_less(a: Seq<char>, b: Seq<char>) -> bool
    decreases a.len(),
{
    if a.len() == 0 {
        b.len() > 0
    } else if b.len() == 0 {
        false
    } else if a[0] != b[0] {
        (a[0] as u32) < (b[0] as u32)
    } else {
        text_less(a.drop_first(), b.drop_first())
    }
}

proof fn lemma_text_less_irreflexive(a: Seq<char>)
    ensures
        !text_less(a, a),
    decreases a.len(),
{
    if a.len() > 0 {
        lemma_text_less_irreflexive(a.drop_first());
    }
}

proof fn lemma_text_less_total(a: Seq<char>, b: Seq<char>)
    ensures
        a == b || text_less(a, b) || text_less(b, a),
    decreases a.len(),
{
    if a.len() > 0 && b.len() > 0 && a[0] == b[0] {
        lemma_text_less_total(a.drop_first(), b.drop_first());
        if a.drop_first() == b.drop_first() {
            assert(a =~= seq![a[0]] + a.drop_first());
            assert(b =~= seq![b[0]] + b.drop_first());
            assert(a == b);
        }
    } else if a.len() == 0 && b.len() == 0 {
        assert(a =~= b);
    } else if a.len() > 0 && b.len() > 0 {
        let u = a[0] as u32;
        if u == (b[0] as u32) {
            vstd::utf8::char_u32_cast(a[0], u);
            vstd::utf8::char_u32_cast(b[0], u);
        }
    }
}

proof fn lemma_text_less_transitive(a: Seq<char>, b: Seq<char>, c: Seq<char>)
    requires
        text_less(a, b),
        text_less(b, c),
    ensures
        text_less(a, c),
    decreases a.len(),
{
    if a.len() > 0 && b.len() > 0 && c.len() > 0 && a[0] == b[0] && b[0] == c[0] {
        lemma_text_less_transitive(a.drop_first(), b.drop_first(), c.drop_first());
    }
}

/// Whether `a` comes before `b` in code-point order.
fn text_before(a: &[char], b: &[char]) -> (r: bool)
    ensures
        r == text_less(a@, b@),
{
    let mut i: usize = 0;
    proof {
        assert(a@.skip(0) =~= a@);
        assert(b@.skip(0) =~= b@);
    }
    while i < a.len() && i < b.len() && a[i] == b[i]
        invariant
            i <= a@.len(),
            i <= b@.len(),
            text_less(a@, b@) == text_less(a@.skip(i as int), b@.skip(i as int)),
        decreases a.len() - i,
    {
        proof {
            assert(a@.skip(i as int).drop_first() =~= a@.skip(i + 1));
            assert(b@.skip(i as int).drop_first() =~= b@.skip(i + 1));
        }
        i = i + 1;
    }
    if i == a.len() {
        i < b.len()
    } else if i == b.len() {
        false
    } else {
        (a[i] as u32) < (b[i] as u32)
    }
}

/// The fingerprints of a task's upstream tasks, by task id, kept in task-id
/// order (as a `BTreeMap<String, Fingerprint>` iterates them).
#[derive(Debug)]
pub struct UpstreamFingerprints {
    entries: Vec<(String, Fingerprint)>,
}

/// The pairs of task id and fingerprint text.
pub open spec fn pair_views(v: Seq<(String, Fingerprint)>) -> Seq<(Seq<char>, Seq<char>)> {
    v.map_values(|e: (String, Fingerprint)| (e.0@, e.1.0@))
}

/// The pairs after recording `(key, value)` at position `i`: the keys
/// before `i` come before `key`; the pair at `i` is replaced when it has
/// that key, else the new pair goes in at `i`.
pub open spec fn inserted_at(
    before: Seq<(Seq<char>, Seq<char>)>,
    after: Seq<(Seq<char>, Seq<char>)>,
    i: int,
    key: Seq<char>,
    value: Seq<char>,
) -> bool {
    &&& 0 <= i <= before.len()
    &&& forall|j: int| 0 <= j < i ==> text_less(#[trigger] before[j].0, key)
    &&& if i < before.len() && before[i].0 == key {
        after == before.update(i, (key, value))
    } else {
        after == before.insert(i, (key, value))
    }
}

/// Task ids strictly increase along the pairs.
pub open spec fn ids_increasing(s: Seq<(Seq<char>, Seq<char>)>) -> bool {
    forall|i: int, j: int| 0 <= i < j < s.len() ==> text_less(#[trigger] s[i].0, #[trigger] s[j].0)
}

impl UpstreamFingerprints {
    #[verifier::type_invariant]
    spec fn sorted(self) -> bool {
        ids_increasing(pair_views(self.entries@))
    }

    /// The pairs of task id and fingerprint text, in task-id order.
    pub closed spec fn pairs(self) -> Seq<(Seq<char>, Seq<char>)> {
        pair_views(self.entries@)
    }

    /// The map from task id to fingerprint text.
    pub open spec fn as_map(self) -> Map<Seq<char>, Seq<char>> {
        Map::new(
            |k: Seq<char>| exists|i: int| 0 <= i < self.pairs().len() && self.pairs()[i].0 == k,
            |k: Seq<char>|
                self.pairs()[choose|i: int| 0 <= i < self.pairs().len() && self.pairs()[i].0 == k].1,
        )
    }

    /// No upstream fingerprints.
    pub fn new() -> (u: Self)
        ensures
            u.pairs() == Seq::<(Seq<char>, Seq<char>)>::empty(),
    {
        let u = UpstreamFingerprints { entries: Vec::new() };
        assert(u.pairs() =~= Seq::<(Seq<char>, Seq<char>)>::empty());
        u
    }

    /// How many upstream tasks there are.
    pub fn len(&self) -> (n: usize)
        ensures
            n == self.pairs().len(),
            ids_increasing(self.pairs()),
    {
        proof {
            use_type_invariant(self);
        }
        self.entries.len()
    }

    /// Records the fingerprint of an upstream task, replacing the one it had.
    pub fn insert(&mut self, task_id: String, fp: Fingerprint)
        ensures
            ids_increasing(final(self).pairs()),
            exists|i: int| inserted_at(old(self).pairs(), final(self).pairs(), i, task_id@, fp.0@),
    {
        proof {
            use_type_invariant(&*self);
        }
        let ghost old_pairs = pair_views(self.entries@);
        let key = chars_of(task_id.as_str());
        let n = self.entries.len();
        let mut i: usize = 0;
        while i < n && text_before(chars_of(self.entries[i].0.as_str()).as_slice(), key.as_slice())
            invariant
                n == self.entries@.len(),
                i <= n,
                key@ == task_id@,
                old_pairs == pair_views(self.entries@),
                ids_increasing(old_pairs),
                forall|j: int| 0 <= j < i ==> text_less(#[trigger] old_pairs[j].0, task_id@),
            decreases n - i,
        {
            i = i + 1;
        }
        let ghost new_pair = (task_id@, fp.0@);
        if i < n && str_eq(self.entries[i].0.as_str(), task_id.as_str()) {
            let mut entries: Vec<(String, Fingerprint)> = Vec::new();
            std::mem::swap(&mut entries, &mut self.entries);
            entries.set(i, (task_id, fp));
            proof {
                assert(pair_views(entries@) =~= old_pairs.update(i as int, new_pair));
                assert forall|a: int, b: int|
                    0 <= a < b < pair_views(entries@).len() implies text_less(
                    #[trigger] pair_views(entries@)[a].0,
                    #[trigger] pair_views(entries@)[b].0,
                ) by {
                    assert(old_pairs[a].0 == pair_views(entries@)[a].0);
                    assert(old_pairs[b].0 == pair_views(entries@)[b].0);
                }
            }
            self.entries = entries;
            assert(inserted_at(old_pairs, self.pairs(), i as int, task_id@, new_pair.1));
            assert(inserted_at(old(self).pairs(), self.pairs(), i as int, task_id@, new_pair.1));
        } else {
            proof {
                if i < n {
                    lemma_text_less_total(old_pairs[i as int].0, task_id@);
                }
            }
            let mut entries: Vec<(String, Fingerprint)> = Vec::new();
            std::mem::swap(&mut entries, &mut self.entries);
            entries.insert(i, (task_id, fp));
            proof {
                let s = pair_views(entries@);
                assert(s =~= old_pairs.insert(i as int, new_pair));
                assert forall|a: int, b: int| 0 <= a < b < s.len() implies text_less(
                    #[trigger] s[a].0,
                    #[trigger] s[b].0,
                ) by {
                    if b < i {
                        assert(s[a] == old_pairs[a] && s[b] == old_pairs[b]);
                    } else if b == i {
                        assert(s[a] == old_pairs[a]);
                    } else if a == i {
                        assert(s[b] == old_pairs[b - 1]);
                        if b - 1 > i {
                            lemma_text_less_transitive(task_id@, old_pairs[i as int].0, old_pairs[b - 1].0);
                        }
                    } else if a < i {
                        assert(s[a] == old_pairs[a] && s[b] == old_pairs[b - 1]);
                    } else {
                        assert(s[a] == old_pairs[a - 1] && s[b] == old_pairs[b - 1]);
                    }
                }
            }
            self.entries = entries;
            assert(inserted_at(old_pairs, self.pairs(), i as int, task_id@, new_pair.1));
            assert(inserted_at(old(self).pairs(), self.pairs(), i as int, task_id@, new_pair.1));
        }
    }

    /// The fingerprint recorded for an upstream task.
    pub fn get(&self, task_id: &str) -> (r: Option<Fingerprint>)
        ensures
            match r {
                Some(fp) => exists|i: int|
                    0 <= i < self.pairs().len() && self.pairs()[i] == (task_id@, fp.0@),
                None => forall|i: int| 0 <= i < self.pairs().len() ==> self.pairs()[i].0 != task_id@,
            },
    {
        let mut i: usize = 0;
        while i < self.entries.len()
            invariant
                i <= self.entries@.len(),
                forall|j: int| 0 <= j < i ==> pair_views(self.entries@)[j].0 != task_id@,
            decreases self.entries.len() - i,
        {
            if str_eq(self.entries[i].0.as_str(), task_id) {
                let fp = Fingerprint(self.entries[i].1.0.clone());
                assert(pair_views(self.entries@)[i as int] == (task_id@, fp.0@));
                assert(self.pairs()[i as int] == (task_id@, fp.0@));
                return Some(fp);
            }
            i = i + 1;
        }
        None
    }
}

/// The lower-case hex digit of a value below sixteen.
pub open spec fn hex_char(d: nat) -> char {
    if d < 10 {
        ('0' as u32 + d) as char
    } else {
        ('a' as u32 + (d - 10)) as char
    }
}

/// The last `k` hex digits of `n`, most significant first, zero-padded.
pub open spec fn hex_of(n: nat, k: nat) -> Seq<char>
    decreases k,
{
    if k == 0 {
        Seq::empty()
    } else {
        hex_of(n / 16, (k - 1) as nat).push(hex_char(n % 16))
    }
}

fn hex_digit(d: u64) -> (c: char)
    requires
        d < 16,
    ensures
        c == hex_char(d as nat),
{
    if d < 10 {
        ((48 + d) as u8) as char
    } else {
        ((97 + d - 10) as u8) as char
    }
}

fn push_hex(out: &mut Vec<char>, n: u64, k: u32)
    ensures
        final(out)@ == old(out)@ + hex_of(n as nat, k as nat),
    decreases k,
{
    if k == 0 {
        assert(old(out)@ + hex_of(n as nat, 0) =~= old(out)@);
        return;
    }
    push_hex(out, n / 16, k - 1);
    out.push(hex_digit(n % 16));
    assert(old(out)@ + hex_of(n as nat, k as nat) =~= old(out)@ + hex_of((n / 16) as nat, (k - 1) as nat)
        + seq![hex_char((n % 16) as nat)]);
}

/// The byte writes that hashing a text makes: its UTF-8 bytes, then `0xff`
/// (what `Hash for str` writes).
pub open spec fn text_writes(s: Seq<char>) -> Seq<Seq<u8>> {
    seq![vstd::utf8::encode_utf8(s), seq![0xffu8]]
}

/// The writes of the upstream pairs, in order: each task id, then its
/// fingerprint text.
pub open spec fn upstream_writes(pairs: Seq<(Seq<char>, Seq<char>)>) -> Seq<Seq<u8>>
    decreases pairs.len(),
{
    if pairs.len() == 0 {
        Seq::empty()
    } else {
        upstream_writes(pairs.drop_last()) + text_writes(pairs.last().0) + text_writes(
            pairs.last().1,
        )
    }
}

/// Everything a fingerprint hashes, in order.
pub open spec fn fingerprint_writes(
    content: Seq<char>,
    config: Seq<char>,
    upstream: Seq<(Seq<char>, Seq<char>)>,
) -> Seq<Seq<u8>> {
    text_writes(content) + text_writes(config) + upstream_writes(upstream)
}

/// The text of a fingerprint.
pub open spec fn fingerprint_text(
    content: Seq<char>,
    config: Seq<char>,
    upstream: Seq<(Seq<char>, Seq<char>)>,
) -> Seq<char> {
    hex_of(DefaultHasher::spec_finish(fingerprint_writes(content, config, upstream)) as nat, 16)
}

/// Feeds a text to the hasher the way `Hash for str` does.
fn hash_text(hasher: &mut DefaultHasher, s: &str)
    ensures
        final(hasher)@ == old(hasher)@ + text_writes(s@),
{
    hasher.write(s.as_bytes());
    let end: Vec<u8> = vec![0xffu8];
    hasher.write(end.as_slice());
    assert(end@ =~= seq![0xffu8]);
    assert(old(hasher)@ + text_writes(s@) =~= old(hasher)@.push(s.spec_bytes()).push(end@));
}

impl Fingerprint {
    /// Computes a fingerprint from a task's content, its configuration and
    /// the fingerprints of its upstream tasks, taken in task-id order.
    pub fn compute(task_content: &str, task_config: &str, upstream: &UpstreamFingerprints) -> (fp:
        Fingerprint)
        ensures
            fp.0@ == fingerprint_text(task_content@, task_config@, upstream.pairs()),
    {
        let mut hasher = DefaultHasher::new();
        hash_text(&mut hasher, task_content);
        hash_text(&mut hasher, task_config);
        let ghost base = text_writes(task_content@) + text_writes(task_config@);
        assert(hasher@ =~= base);
        let n = upstream.entries.len();
        let mut i: usize = 0;
        while i < n
            invariant
                n == upstream.entries@.len(),
                i <= n,
                hasher@ == base + upstream_writes(pair_views(upstream.entries@).take(i as int)),
            decreases n - i,
        {
            let ghost before = pair_views(upstream.entries@).take(i as int);
            hash_text(&mut hasher, upstream.entries[i].0.as_str());
            hash_text(&mut hasher, upstream.entries[i].1.0.as_str());
            proof {
                let after = pair_views(upstream.entries@).take(i + 1);
                assert(after.drop_last() =~= before);
                assert(after.last() == pair_views(upstream.entries@)[i as int]);
                assert(hasher@ =~= base + upstream_writes(after));
            }
            i = i + 1;
        }
        proof {
            assert(pair_views(upstream.entries@).take(n as int) =~= pair_views(upstream.entries@));
        }
        let hash = hasher.finish();
        let mut out: Vec<char> = Vec::new();
        push_hex(&mut out, hash, 16);
        assert(out@ =~= hex_of(hash as nat, 16));
        Fingerprint(string_of(out.as_slice()))
    }

    /// A fingerprint from a raw hex string.
    pub fn from_hex(hex: &str) -> (fp: Fingerprint)
        ensures
            fp.0@ == hex@,
    {
        Fingerprint(owned(hex))
    }
}

/// Two pair lists hold the same (task id, fingerprint) pairs.
pub open spec fn same_pairs(a: Seq<(Seq<char>, Seq<char>)>, b: Seq<(Seq<char>, Seq<char>)>) -> bool {
    forall|p: (Seq<char>, Seq<char>)| a.contains(p) <==> b.contains(p)
}

/// Pair lists sorted by task id that hold the same pairs are equal.
proof fn lemma_sorted_pairs_equal(a: Seq<(Seq<char>, Seq<char>)>, b: Seq<(Seq<char>, Seq<char>)>)
    requires
        ids_increasing(a),
        ids_increasing(b),
        same_pairs(a, b),
    ensures
        a == b,
    decreases a.len(),
{
    if a.len() == 0 {
        if b.len() > 0 {
            assert(b.contains(b[0]));
        }
        assert(a =~= b);
    } else if b.len() == 0 {
        assert(a.contains(a[0]));
    } else {
        assert(a.contains(a[0]));
        assert(b.contains(b[0]));
        let j = choose|j: int| 0 <= j < b.len() && b[j] == a[0];
        let i = choose|i: int| 0 <= i < a.len() && a[i] == b[0];
        if j > 0 {
            assert(text_less(b[0].0, b[j].0));
            if i > 0 {
                assert(text_less(a[0].0, a[i].0));
                lemma_text_less_transitive(a[0].0, b[0].0, a[0].0);
                lemma_text_less_irreflexive(a[0].0);
            } else {
                lemma_text_less_irreflexive(b[0].0);
            }
        }
        assert(a[0] == b[0]);
        let ta = a.drop_first();
        let tb = b.drop_first();
        assert forall|x: int, y: int| 0 <= x < y < ta.len() implies text_less(#[trigger] ta[x].0, #[trigger] ta[y].0) by {
            assert(ta[x] == a[x + 1] && ta[y] == a[y + 1]);
        }
        assert forall|x: int, y: int| 0 <= x < y < tb.len() implies text_less(#[trigger] tb[x].0, #[trigger] tb[y].0) by {
            assert(tb[x] == b[x + 1] && tb[y] == b[y + 1]);
        }
        assert forall|p: (Seq<char>, Seq<char>)| ta.contains(p) implies tb.contains(p) by {
            let x = choose|x: int| 0 <= x < ta.len() && ta[x] == p;
            assert(a[x + 1] == p);
            assert(a.contains(p));
            let y = choose|y: int| 0 <= y < b.len() && b[y] == p;
            if y == 0 {
                assert(text_less(a[0].0, a[x + 1].0));
                lemma_text_less_irreflexive(a[0].0);
            }
            assert(tb[y - 1] == p);
        }
        assert forall|p: (Seq<char>, Seq<char>)| tb.contains(p) implies ta.contains(p) by {
            let y = choose|y: int| 0 <= y < tb.len() && tb[y] == p;
            assert(b[y + 1] == p);
            assert(b.contains(p));
            let x = choose|x: int| 0 <= x < a.len() && a[x] == p;
            if x == 0 {
                assert(text_less(b[0].0, b[y + 1].0));
                lemma_text_less_irreflexive(b[0].0);
            }
            assert(ta[x - 1] == p);
        }
        lemma_sorted_pairs_equal(ta, tb);
        assert(a =~= seq![a[0]] + ta);
        assert(b =~= seq![b[0]] + tb);
    }
}

/// The fingerprint is fixed by the content, the configuration and the
/// upstream (task id, fingerprint) pairs, whatever order the upstream
/// fingerprints were inserted in (the upstream pairs are kept sorted by
/// task id); it is 16 lower-case hex digits.
pub proof fn law_fingerprint_deterministic(
    content: Seq<char>,
    config: Seq<char>,
    upstream_a: Seq<(Seq<char>, Seq<char>)>,
    upstream_b: Seq<(Seq<char>, Seq<char>)>,
)
    requires
        ids_increasing(upstream_a),
        ids_increasing(upstream_b),
        same_pairs(upstream_a, upstream_b),
    ensures
        fingerprint_text(content, config, upstream_a) == fingerprint_text(content, config, upstream_b),
        fingerprint_text(content, config, upstream_a).len() == 16,
        forall|i: int|
            0 <= i < 16 ==> is_lower_hex(#[trigger] fingerprint_text(content, config, upstream_a)[i]),
{
    lemma_sorted_pairs_equal(upstream_a, upstream_b);
    lemma_hex_len(DefaultHasher::spec_finish(fingerprint_writes(content, config, upstream_a)) as nat, 16);
}

/// A character is a digit or one of `a` to `f`.
pub open spec fn is_lower_hex(c: char) -> bool {
    ('0' <= c && c <= '9') || ('a' <= c && c <= 'f')
}

proof fn lemma_hex_len(n: nat, k: nat)
    ensures
        hex_of(n, k).len() == k,
        forall|i: int| 0 <= i < k ==> is_lower_hex(#[trigger] hex_of(n, k)[i]),
    decreases k,
{
    if k > 0 {
        lemma_hex_len(n / 16, (k - 1) as nat);
        let d = n % 16;
        assert(is_lower_hex(hex_char(d))) by {
            if d < 10 {
                assert(hex_char(d) as u32 == '0' as u32 + d);
            } else {
                assert(hex_char(d) as u32 == 'a' as u32 + (d - 10));
            }
        }
        assert forall|i: int| 0 <= i < k implies is_lower_hex(#[trigger] hex_of(n, k)[i]) by {
            if i < k - 1 {
                assert(hex_of(n, k)[i] == hex_of(n / 16, (k - 1) as nat)[i]);
            } else {
                assert(hex_of(n, k)[i] == hex_char(d));
            }
        }
    }
}

} // verus!
