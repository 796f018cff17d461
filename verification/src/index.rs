//! The local search index: normalised characters, character n-grams of a
//! chunk with their counts, the n-grams of a query, and the ranking of
//! chunks by matched n-gram counts.

use vstd::prelude::*;
use std::collections::HashMap;
use std::collections::HashSet;
use crate::text::{ascii_punct, chars_of, is_ascii_punct, is_white_space, string_of, take_chars, take_prefix, white_space};
use crate::model::owned;
use crate::records::{ChunkRef, EvidenceSpan};

verus! {

broadcast use vstd::std_specs::hash::group_hash_axioms;

/// Most query n-grams a search looks up.
pub const MAX_QUERY_NGRAMS: usize = 80;

/// Most characters of a chunk's text that a piece of evidence carries.
pub const EVIDENCE_TEXT_MAX_CHARS: usize = 900;

/// A character the index keeps: neither white space nor ASCII punctuation.
pub open spec fn kept(c: char) -> bool {
    !is_white_space(c) && !is_ascii_punct(c)
}

/// The characters of a text that the index sees.
pub open spec fn normalized(s: Seq<char>) -> Seq<char> {
    s.filter(|c: char| kept(c))
}

/// All windows of `n` consecutive characters of `v`, in order.
pub open spec fn windows(v: Seq<char>, n: int) -> Seq<Seq<char>> {
    if v.len() >= n {
        Seq::new((v.len() - n + 1) as nat, |i: int| v.subrange(i, i + n))
    } else {
        seq![]
    }
}

/// The n-grams a chunk is indexed under: its bigrams, then its trigrams.
pub open spec fn chunk_grams(v: Seq<char>) -> Seq<Seq<char>> {
    windows(v, 2) + windows(v, 3)
}

/// How often `x` occurs in `g`.
pub open spec fn occurrences(g: Seq<Seq<char>>, x: Seq<char>) -> nat
    decreases g.len(),
{
    if g.len() == 0 {
        0
    } else {
        occurrences(g.drop_last(), x) + if g.last() == x {
            1nat
        } else {
            0nat
        }
    }
}

/// The characters of `text` that are neither white space nor ASCII
/// punctuation.
pub fn normalized_chars(text: &str) -> (r: Vec<char>)
    ensures
        r@ == normalized(text@),
{
    let v = chars_of(text);
    let mut r: Vec<char> = Vec::new();
    let mut i: usize = 0;
    while i < v.len()
        invariant
            i <= v.len(),
            r@ == v@.take(i as int).filter(|c: char| kept(c)),
        decreases v.len() - i,
    {
        let c = v[i];
        proof {
            assert(v@.take(i + 1) =~= v@.take(i as int).push(c));
            v@.take(i as int).lemma_filter_push(c, |c: char| kept(c));
        }
        if !white_space(c) && !ascii_punct(c) {
            r.push(c);
        }
        i = i + 1;
    }
    assert(v@.take(v.len() as int) =~= v@);
    r
}

proof fn lemma_normalized_from(s: Seq<char>, c: char)
    ensures
        normalized(s).contains(c) ==> s.contains(c),
    decreases s.len(),
{
    reveal(Seq::filter);
    if s.len() > 0 {
        let pre = s.drop_last();
        lemma_normalized_from(pre, c);
        if normalized(s).contains(c) {
            let n = normalized(s);
            let j = choose|j: int| 0 <= j < n.len() && n[j] == c;
            if j < normalized(pre).len() {
                assert(normalized(pre)[j] == c);
                assert(normalized(pre).contains(c));
                let k = choose|k: int| 0 <= k < pre.len() && pre[k] == c;
                assert(s[k] == pre[k]);
            } else {
                assert(s[s.len() - 1] == c);
            }
        }
    }
}

proof fn lemma_normalized_identity(s: Seq<char>)
    requires
        forall|i: int| 0 <= i < s.len() ==> kept(#[trigger] s[i]),
    ensures
        normalized(s) == s,
    decreases s.len(),
{
    reveal(Seq::filter);
    if s.len() > 0 {
        let pre = s.drop_last();
        assert forall|i: int| 0 <= i < pre.len() implies kept(#[trigger] pre[i]) by {
            assert(pre[i] == s[i]);
        }
        lemma_normalized_identity(pre);
        assert(kept(s[s.len() - 1]));
        assert(pre.push(s.last()) =~= s);
    }
}

/// Normalising a text drops exactly its white space and ASCII punctuation:
/// a character is left in exactly when it occurs in the text and is
/// neither; so every ASCII letter and digit (and every CJK character) of the
/// text stays, and a text with nothing to drop comes back unchanged.
pub proof fn normalization_drops_only_space_and_punctuation(s: Seq<char>, c: char)
    ensures
        normalized(s).contains(c) <==> (s.contains(c) && !is_white_space(c) && !is_ascii_punct(c)),
        ('0' <= c && c <= '9') || ('a' <= c && c <= 'z') || ('A' <= c && c <= 'Z') ==> (normalized(
            s,
        ).contains(c) <==> s.contains(c)),
        (forall|i: int| 0 <= i < s.len() ==> !is_white_space(#[trigger] s[i]) && !is_ascii_punct(s[i]))
            ==> normalized(s) == s,
        normalized(s).len() <= s.len(),
{
    s.filter_lemma(|x: char| kept(x));
    lemma_normalized_from(s, c);
    if normalized(s).contains(c) {
        let j = choose|j: int| 0 <= j < normalized(s).len() && normalized(s)[j] == c;
        assert(kept(normalized(s)[j]));
    }
    if s.contains(c) && kept(c) {
        let k = choose|k: int| 0 <= k < s.len() && s[k] == c;
        assert(normalized(s).contains(s[k]));
    }
    if forall|i: int| 0 <= i < s.len() ==> !is_white_space(#[trigger] s[i]) && !is_ascii_punct(s[i]) {
        assert forall|i: int| 0 <= i < s.len() implies kept(#[trigger] s[i]) by {
            assert(!is_white_space(s[i]) && !is_ascii_punct(s[i]));
        }
        lemma_normalized_identity(s);
    }
}

/// A number that tells n-grams of two or three characters apart.
pub open spec fn gram_key(g: Seq<char>) -> int {
    if g.len() == 2 {
        0x8000_0000_0000_0000 + (g[0] as int) * 0x20_0000 + (g[1] as int)
    } else {
        (g[0] as int) * 0x400_0000_0000 + (g[1] as int) * 0x20_0000 + (g[2] as int)
    }
}

pub open spec fn is_gram(g: Seq<char>) -> bool {
    g.len() == 2 || g.len() == 3
}

proof fn lemma_char_bound(c: char)
    ensures
        0 <= (c as int) < 0x20_0000,
{
}

proof fn lemma_gram_key_injective(g: Seq<char>, h: Seq<char>)
    requires
        is_gram(g),
        is_gram(h),
        gram_key(g) == gram_key(h),
    ensures
        g == h,
{
    lemma_char_bound(g[0]);
    lemma_char_bound(g[1]);
    lemma_char_bound(h[0]);
    lemma_char_bound(h[1]);
    if g.len() == 3 {
        lemma_char_bound(g[2]);
    }
    if h.len() == 3 {
        lemma_char_bound(h[2]);
    }
    assert(g.len() == h.len());
    if g.len() == 2 {
        assert(g[0] as int == h[0] as int);
        assert(g[1] as int == h[1] as int);
        assert(g =~= h);
    } else {
        assert(g[0] as int == h[0] as int);
        assert(g[1] as int == h[1] as int);
        assert(g[2] as int == h[2] as int);
        assert(g =~= h);
    }
}

proof fn lemma_gram_key_range(g: Seq<char>)
    requires
        is_gram(g),
    ensures
        0 <= gram_key(g) <= u64::MAX,
{
    lemma_char_bound(g[0]);
    lemma_char_bound(g[1]);
    if g.len() == 3 {
        lemma_char_bound(g[2]);
    }
}

fn window_key(v: &Vec<char>, i: usize, n: usize) -> (k: u64)
    requires
        n == 2 || n == 3,
        i + n <= v.len(),
    ensures
        k as int == gram_key(v@.subrange(i as int, i + n)),
{
    let ghost w = v@.subrange(i as int, i + n);
    proof {
        lemma_char_bound(v@[i as int]);
        lemma_char_bound(v@[i + 1]);
        if n == 3 {
            lemma_char_bound(v@[i + 2]);
        }
        assert(w[0] == v@[i as int]);
        assert(w[1] == v@[i + 1]);
    }
    let a = (v[i] as u32) as u64;
    let b = (v[i + 1] as u32) as u64;
    if n == 2 {
        0x8000_0000_0000_0000u64 + a * 0x20_0000 + b
    } else {
        assert(w[2] == v@[i + 2]);
        let c = (v[i + 2] as u32) as u64;
        a * 0x400_0000_0000 + b * 0x20_0000 + c
    }
}

proof fn lemma_occurrences_push(g: Seq<Seq<char>>, w: Seq<char>, x: Seq<char>)
    ensures
        occurrences(g.push(w), x) == occurrences(g, x) + if w == x {
            1nat
        } else {
            0nat
        },
{
    assert(g.push(w).drop_last() =~= g);
}

proof fn lemma_occurrences_le(g: Seq<Seq<char>>, x: Seq<char>)
    ensures
        occurrences(g, x) <= g.len(),
    decreases g.len(),
{
    if g.len() > 0 {
        lemma_occurrences_le(g.drop_last(), x);
    }
}

proof fn lemma_occurrences_other_len(g: Seq<Seq<char>>, x: Seq<char>)
    requires
        forall|j: int| 0 <= j < g.len() ==> (#[trigger] g[j]).len() != x.len(),
    ensures
        occurrences(g, x) == 0,
    decreases g.len(),
{
    if g.len() > 0 {
        lemma_occurrences_other_len(g.drop_last(), x);
        assert(g.last() == g[g.len() - 1]);
    }
}

proof fn lemma_occurrences_append(a: Seq<Seq<char>>, b: Seq<Seq<char>>, x: Seq<char>)
    ensures
        occurrences(a + b, x) == occurrences(a, x) + occurrences(b, x),
    decreases b.len(),
{
    if b.len() == 0 {
        assert(a + b =~= a);
    } else {
        lemma_occurrences_append(a, b.drop_last(), x);
        assert((a + b).drop_last() =~= a + b.drop_last());
    }
}

/// The tally kept while counting n-grams.
pub open spec fn tally_ok(
    grams: Seq<String>,
    counts: Seq<usize>,
    slots: Map<u64, usize>,
    seen: Seq<Seq<char>>,
) -> bool {
    &&& grams.len() == counts.len()
    &&& forall|p: int| 0 <= p < grams.len() ==> is_gram(#[trigger] grams[p]@)
    &&& forall|p: int|
        0 <= p < grams.len() ==> slots.contains_key(gram_key(#[trigger] grams[p]@) as u64)
            && slots[gram_key(grams[p]@) as u64] == p
    &&& forall|k: u64|
        #[trigger] slots.contains_key(k) ==> slots[k] < grams.len() && gram_key(
            grams[slots[k] as int]@,
        ) == k
    &&& forall|p: int| 0 <= p < grams.len() ==> #[trigger] counts[p] == occurrences(seen, grams[p]@)
    &&& forall|p: int| 0 <= p < grams.len() ==> #[trigger] counts[p] > 0
    &&& forall|x: Seq<char>| occurrences(seen, x) > 0 ==> exists|p: int| 0 <= p < grams.len() && #[trigger] grams[p]@ == x
}

proof fn lemma_windows_index(v: Seq<char>, n: int, i: int)
    requires
        n >= 1,
        0 <= i,
        i + n <= v.len(),
    ensures
        windows(v, n).len() == v.len() - n + 1,
        windows(v, n)[i] == v.subrange(i, i + n),
{
}

fn count_pass(
    v: &Vec<char>,
    n: usize,
    grams: &mut Vec<String>,
    counts: &mut Vec<usize>,
    slots: &mut HashMap<u64, usize>,
    Ghost(before): Ghost<Seq<Seq<char>>>,
)
    requires
        n == 2 || n == 3,
        forall|j: int| 0 <= j < before.len() ==> (#[trigger] before[j]).len() != n,
        tally_ok(old(grams)@, old(counts)@, old(slots)@, before),
    ensures
        tally_ok(final(grams)@, final(counts)@, final(slots)@, before + windows(v@, n as int)),
{
    if v.len() < n {
        assert(before + windows(v@, n as int) =~= before);
        return;
    }
    let last = v.len() - n;
    let mut i: usize = 0;
    while i <= last
        invariant
            n == 2 || n == 3,
            last == v.len() - n,
            i <= last + 1,
            forall|j: int| 0 <= j < before.len() ==> (#[trigger] before[j]).len() != n,
            tally_ok(grams@, counts@, slots@, before + windows(v@, n as int).take(i as int)),
        decreases last + 1 - i,
    {
        let ghost seen = before + windows(v@, n as int).take(i as int);
        let ghost w = v@.subrange(i as int, i + n);
        proof {
            lemma_windows_index(v@, n as int, i as int);
            assert(before + windows(v@, n as int).take(i + 1) =~= seen.push(w));
        }
        let key = window_key(v, i, n);
        let found = slots.get(&key);
        match found {
            Some(p) => {
                let p = *p;
                proof {
                    lemma_gram_key_injective(grams@[p as int]@, w);
                    lemma_occurrences_other_len(before, w);
                    lemma_occurrences_append(before, windows(v@, n as int).take(i as int), w);
                    lemma_occurrences_le(windows(v@, n as int).take(i as int), w);
                }
                let c = counts[p];
                counts.set(p, c + 1);
                proof {
                    assert forall|q: int| 0 <= q < grams@.len() implies #[trigger] counts@[q]
                        == occurrences(seen.push(w), grams@[q]@) by {
                        lemma_occurrences_push(seen, w, grams@[q]@);
                        if q != p {
                            if grams@[q]@ == w {
                                assert(slots@[gram_key(grams@[q]@) as u64] == q);
                            }
                        }
                    }
                    assert forall|x: Seq<char>| occurrences(seen.push(w), x) > 0 implies exists|
                        q: int,
                    | 0 <= q < grams@.len() && #[trigger] grams@[q]@ == x by {
                        lemma_occurrences_push(seen, w, x);
                        if x == w {
                            assert(grams@[p as int]@ == x);
                        }
                    }
                }
            },
            None => {
                let g = string_of(v, i, i + n);
                let ghost old_grams = grams@;
                let ghost old_slots = slots@;
                let slot = grams.len();
                grams.push(g);
                counts.push(1);
                slots.insert(key, slot);
                proof {
                    lemma_occurrences_other_len(before, w);
                    assert forall|q: int| 0 <= q < old_grams.len() implies grams@[q]@ != w by {
                        if grams@[q]@ == w {
                            assert(old_slots.contains_key(gram_key(old_grams[q]@) as u64));
                        }
                    }
                    assert(occurrences(seen, w) == 0) by {
                        if occurrences(seen, w) > 0 {
                            let q = choose|q: int| 0 <= q < old_grams.len() && #[trigger] old_grams[q]@ == w;
                            assert(grams@[q]@ == w);
                        }
                    }
                    assert forall|q: int| 0 <= q < grams@.len() implies #[trigger] counts@[q]
                        == occurrences(seen.push(w), grams@[q]@) by {
                        lemma_occurrences_push(seen, w, grams@[q]@);
                    }
                    assert forall|q: int| 0 <= q < grams@.len() implies slots@.contains_key(
                        gram_key(#[trigger] grams@[q]@) as u64,
                    ) && slots@[gram_key(grams@[q]@) as u64] == q by {
                        if q < old_grams.len() {
                            lemma_gram_key_range(grams@[q]@);
                            lemma_gram_key_range(w);
                            if gram_key(grams@[q]@) == gram_key(w) {
                                lemma_gram_key_injective(grams@[q]@, w);
                            }
                        }
                    }
                    assert forall|k: u64| #[trigger] slots@.contains_key(k) implies slots@[k]
                        < grams@.len() && gram_key(grams@[slots@[k] as int]@) == k by {
                        if k != key {
                            assert(old_slots.contains_key(k));
                        }
                    }
                    assert forall|x: Seq<char>| occurrences(seen.push(w), x) > 0 implies exists|
                        q: int,
                    | 0 <= q < grams@.len() && #[trigger] grams@[q]@ == x by {
                        lemma_occurrences_push(seen, w, x);
                        if x == w {
                            assert(grams@[slot as int]@ == x);
                        } else {
                            let q = choose|q: int| 0 <= q < old_grams.len() && #[trigger] old_grams[q]@ == x;
                            assert(grams@[q]@ == x);
                        }
                    }
                }
            },
        }
        i = i + 1;
    }
    proof {
        assert(windows(v@, n as int).take(last + 1) =~= windows(v@, n as int));
    }
}

/// Every bigram and trigram of the normalised text with the number of times
/// it occurs, and nothing else. Each n-gram appears once; the order is not
/// part of the contract.
pub fn ngram_counts(text: &str) -> (r: Vec<(String, usize)>)
    ensures
        forall|p: int| 0 <= p < r.len() ==> (#[trigger] r@[p]).1 > 0,
        forall|p: int|
            0 <= p < r.len() ==> (#[trigger] r@[p]).1 == occurrences(
                chunk_grams(normalized(text@)),
                r@[p].0@,
            ),
        forall|p: int, q: int| 0 <= p < q < r.len() ==> (#[trigger] r@[p]).0@ != (#[trigger] r@[q]).0@,
        forall|x: Seq<char>|
            occurrences(chunk_grams(normalized(text@)), x) > 0 ==> exists|p: int|
                0 <= p < r.len() && (#[trigger] r@[p]).0@ == x,
{
    let v = normalized_chars(text);
    let mut grams: Vec<String> = Vec::new();
    let mut counts: Vec<usize> = Vec::new();
    let mut slots: HashMap<u64, usize> = HashMap::new();
    proof {
        assert(slots@ =~= Map::<u64, usize>::empty());
    }
    count_pass(&v, 2, &mut grams, &mut counts, &mut slots, Ghost(Seq::empty()));
    proof {
        assert(Seq::<Seq<char>>::empty() + windows(v@, 2) =~= windows(v@, 2));
    }
    count_pass(&v, 3, &mut grams, &mut counts, &mut slots, Ghost(windows(v@, 2)));
    let ghost all = windows(v@, 2) + windows(v@, 3);
    let mut r: Vec<(String, usize)> = Vec::new();
    let mut k: usize = 0;
    while k < grams.len()
        invariant
            tally_ok(grams@, counts@, slots@, all),
            all == chunk_grams(v@),
            k <= grams.len(),
            r.len() == k,
            forall|p: int| 0 <= p < k ==> (#[trigger] r@[p]).0@ == grams@[p]@ && r@[p].1 == counts@[p],
        decreases grams.len() - k,
    {
        r.push((grams[k].clone(), counts[k]));
        k = k + 1;
    }
    proof {
        assert forall|p: int, q: int| 0 <= p < q < r.len() implies (#[trigger] r@[p]).0@ != (
        #[trigger] r@[q]).0@ by {
            if grams@[p]@ == grams@[q]@ {
                assert(slots@[gram_key(grams@[p]@) as u64] == p);
            }
        }
        assert forall|x: Seq<char>| occurrences(all, x) > 0 implies exists|p: int|
            0 <= p < r.len() && (#[trigger] r@[p]).0@ == x by {
            let p = choose|p: int| 0 <= p < grams@.len() && #[trigger] grams@[p]@ == x;
            assert(r@[p].0@ == x);
        }
    }
    r
}

/// `g` with every element after its first occurrence removed.
pub open spec fn first_seen(g: Seq<Seq<char>>) -> Seq<Seq<char>>
    decreases g.len(),
{
    if g.len() == 0 {
        seq![]
    } else {
        let d = first_seen(g.drop_last());
        if d.contains(g.last()) {
            d
        } else {
            d.push(g.last())
        }
    }
}

/// The n-grams of a query in the order a search tries them: trigrams, then
/// bigrams, each once.
pub open spec fn query_gram_order(v: Seq<char>) -> Seq<Seq<char>> {
    first_seen(windows(v, 3) + windows(v, 2))
}

/// The n-grams a search looks up for `query`: at most `MAX_QUERY_NGRAMS`.
pub open spec fn query_grams_of(query: Seq<char>) -> Seq<Seq<char>> {
    let all = query_gram_order(normalized(query));
    if all.len() <= MAX_QUERY_NGRAMS {
        all
    } else {
        all.take(MAX_QUERY_NGRAMS as int)
    }
}

proof fn lemma_first_seen_grams(g: Seq<Seq<char>>)
    requires
        forall|j: int| 0 <= j < g.len() ==> is_gram(#[trigger] g[j]),
    ensures
        forall|j: int| 0 <= j < first_seen(g).len() ==> is_gram(#[trigger] first_seen(g)[j]),
    decreases g.len(),
{
    if g.len() > 0 {
        lemma_first_seen_grams(g.drop_last());
        assert(g.last() == g[g.len() - 1]);
        let d = first_seen(g.drop_last());
        assert forall|j: int| 0 <= j < first_seen(g).len() implies is_gram(#[trigger] first_seen(g)[j]) by {
            if j < d.len() {
                assert(first_seen(g)[j] == d[j]);
            }
        }
    }
}

fn seen_pass(
    v: &Vec<char>,
    n: usize,
    out: &mut Vec<String>,
    seen: &mut HashSet<u64>,
    Ghost(before): Ghost<Seq<Seq<char>>>,
)
    requires
        n == 2 || n == 3,
        forall|j: int| 0 <= j < before.len() ==> is_gram(#[trigger] before[j]),
        old(out)@.map_values(|s: String| s@) == first_seen(before),
        forall|k: u64| old(seen)@.contains(k) <==> exists|j: int| 0 <= j < old(out)@.len() && gram_key(#[trigger] old(out)@[j]@) == k,
    ensures
        final(out)@.map_values(|s: String| s@) == first_seen(before + windows(v@, n as int)),
        forall|k: u64| final(seen)@.contains(k) <==> exists|j: int| 0 <= j < final(out)@.len() && gram_key(#[trigger] final(out)@[j]@) == k,
{
    if v.len() < n {
        assert(before + windows(v@, n as int) =~= before);
        return;
    }
    let last = v.len() - n;
    let mut i: usize = 0;
    while i <= last
        invariant
            n == 2 || n == 3,
            last == v.len() - n,
            i <= last + 1,
            forall|j: int| 0 <= j < before.len() ==> is_gram(#[trigger] before[j]),
            out@.map_values(|s: String| s@) == first_seen(before + windows(v@, n as int).take(i as int)),
            forall|k: u64| seen@.contains(k) <==> exists|j: int| 0 <= j < out@.len() && gram_key(#[trigger] out@[j]@) == k,
        decreases last + 1 - i,
    {
        let ghost prior = before + windows(v@, n as int).take(i as int);
        let ghost w = v@.subrange(i as int, i + n);
        proof {
            lemma_windows_index(v@, n as int, i as int);
            assert(before + windows(v@, n as int).take(i + 1) =~= prior.push(w));
            assert(prior.push(w).drop_last() =~= prior);
            assert forall|j: int| 0 <= j < prior.len() implies is_gram(#[trigger] prior[j]) by {
                if j >= before.len() {
                    assert(prior[j] == windows(v@, n as int)[j - before.len()]);
                }
            }
            lemma_first_seen_grams(prior);
        }
        let key = window_key(v, i, n);
        let fresh = !seen.contains(&key);
        proof {
            let d = first_seen(prior);
            assert(forall|j: int| 0 <= j < out@.len() ==> #[trigger] out@[j]@ == d[j]);
            if fresh {
                assert(!d.contains(w)) by {
                    if d.contains(w) {
                        let j = choose|j: int| 0 <= j < d.len() && d[j] == w;
                        assert(out@[j]@ == w);
                    }
                }
            } else {
                let j = choose|j: int| 0 <= j < out@.len() && gram_key(#[trigger] out@[j]@) == key;
                assert(is_gram(d[j]));
                lemma_gram_key_injective(out@[j]@, w);
                assert(d.contains(w));
            }
        }
        if fresh {
            let ghost old_out = out@;
            out.push(string_of(v, i, i + n));
            seen.insert(key);
            proof {
                assert(out@.map_values(|s: String| s@) =~= old_out.map_values(|s: String| s@).push(w));
                assert forall|k: u64| seen@.contains(k) implies exists|j: int| 0 <= j < out@.len() && gram_key(#[trigger] out@[j]@) == k by {
                    if k == key {
                        assert(gram_key(out@[old_out.len() as int]@) == k);
                    } else {
                        let j = choose|j: int| 0 <= j < old_out.len() && gram_key(#[trigger] old_out[j]@) == k;
                        assert(out@[j] == old_out[j]);
                    }
                }
                assert forall|k: u64| (exists|j: int| 0 <= j < out@.len() && gram_key(#[trigger] out@[j]@) == k) implies seen@.contains(k) by {
                    let j = choose|j: int| 0 <= j < out@.len() && gram_key(#[trigger] out@[j]@) == k;
                    if j < old_out.len() {
                        assert(out@[j] == old_out[j]);
                    }
                }
            }
        }
        i = i + 1;
    }
    proof {
        assert(windows(v@, n as int).take(last + 1) =~= windows(v@, n as int));
    }
}

/// The distinct trigrams and then bigrams of the normalised text, each at
/// its first occurrence.
pub fn ordered_ngrams(text: &str) -> (r: Vec<String>)
    ensures
        r@.map_values(|s: String| s@) == query_gram_order(normalized(text@)),
{
    let v = normalized_chars(text);
    let mut out: Vec<String> = Vec::new();
    let mut seen: HashSet<u64> = HashSet::new();
    proof {
        assert(out@.map_values(|s: String| s@) =~= first_seen(Seq::<Seq<char>>::empty()));
    }
    seen_pass(&v, 3, &mut out, &mut seen, Ghost(Seq::empty()));
    proof {
        assert(Seq::<Seq<char>>::empty() + windows(v@, 3) =~= windows(v@, 3));
        assert forall|j: int| 0 <= j < windows(v@, 3).len() implies is_gram(#[trigger] windows(v@, 3)[j]) by {}
    }
    seen_pass(&v, 2, &mut out, &mut seen, Ghost(windows(v@, 3)));
    out
}

/// The n-grams a search looks up for `query` (`ordered_ngrams` cut to
/// `MAX_QUERY_NGRAMS`).
pub fn query_grams(query: &str) -> (r: Vec<String>)
    ensures
        r@.map_values(|s: String| s@) == query_grams_of(query@),
{
    let mut all = ordered_ngrams(query);
    let ghost full = all@;
    all.truncate(MAX_QUERY_NGRAMS);
    proof {
        if full.len() > MAX_QUERY_NGRAMS {
            assert(all@.map_values(|s: String| s@) =~= full.map_values(|s: String| s@).take(MAX_QUERY_NGRAMS as int));
        }
    }
    all
}

/// The summed count of the n-gram matches of chunk `idx` among `ms`, a
/// list of (chunk index, count) pairs.
pub open spec fn score_of(ms: Seq<(usize, i64)>, idx: usize) -> int
    decreases ms.len(),
{
    if ms.len() == 0 {
        0
    } else {
        score_of(ms.drop_last(), idx) + if ms.last().0 == idx {
            ms.last().1 as int
        } else {
            0
        }
    }
}

/// Chunk `idx` has at least one match in `ms`.
pub open spec fn is_matched(ms: Seq<(usize, i64)>, idx: usize) -> bool {
    exists|j: int| 0 <= j < ms.len() && (#[trigger] ms[j]).0 == idx
}

/// The search order: higher score first, then lower chunk index.
pub open spec fn ranks_above(a: (usize, i64), b: (usize, i64)) -> bool {
    a.1 > b.1 || (a.1 == b.1 && a.0 < b.0)
}

/// Every running sum per chunk stays within `i64`.
pub open spec fn scores_fit(ms: Seq<(usize, i64)>) -> bool {
    forall|k: int, idx: usize|
        0 <= k <= ms.len() ==> i64::MIN <= #[trigger] score_of(ms.take(k), idx) <= i64::MAX
}

/// `top` is the best `limit` chunks of `ms` in search order, each with its
/// summed score.
pub open spec fn is_top_ranking(ms: Seq<(usize, i64)>, limit: int, top: Seq<(usize, i64)>) -> bool {
    &&& top.len() <= limit
    &&& forall|k: int|
        0 <= k < top.len() ==> is_matched(ms, (#[trigger] top[k]).0) && top[k].1 == score_of(
            ms,
            top[k].0,
        )
    &&& forall|a: int, b: int| 0 <= a < b < top.len() ==> ranks_above(#[trigger] top[a], #[trigger] top[b])
    &&& forall|idx: usize|
        #[trigger] is_matched(ms, idx) ==> (exists|k: int| 0 <= k < top.len() && (#[trigger] top[k]).0 == idx)
            || (top.len() == limit && (limit == 0 || ranks_above(
            top[limit - 1],
            (idx, score_of(ms, idx) as i64),
        )))
}

proof fn lemma_score_unmatched(ms: Seq<(usize, i64)>, idx: usize)
    requires
        !is_matched(ms, idx),
    ensures
        score_of(ms, idx) == 0,
    decreases ms.len(),
{
    if ms.len() > 0 {
        assert(!is_matched(ms.drop_last(), idx)) by {
            if is_matched(ms.drop_last(), idx) {
                let j = choose|j: int| 0 <= j < ms.drop_last().len() && (#[trigger] ms.drop_last()[j]).0 == idx;
                assert(ms[j] == ms.drop_last()[j]);
            }
        }
        lemma_score_unmatched(ms.drop_last(), idx);
        assert(ms.last() == ms[ms.len() - 1]);
    }
}

pub open spec fn sorted_ranking(s: Seq<(usize, i64)>) -> bool {
    forall|a: int, b: int| 0 <= a < b < s.len() ==> ranks_above(#[trigger] s[a], #[trigger] s[b])
}

/// Per-chunk sums of `ms`: one entry per matched chunk.
pub open spec fn is_aggregate(ms: Seq<(usize, i64)>, agg: Seq<(usize, i64)>) -> bool {
    &&& forall|p: int, q: int| 0 <= p < q < agg.len() ==> (#[trigger] agg[p]).0 != (#[trigger] agg[q]).0
    &&& forall|p: int|
        0 <= p < agg.len() ==> is_matched(ms, (#[trigger] agg[p]).0) && agg[p].1 == score_of(ms, agg[p].0)
    &&& forall|x: usize| #[trigger] is_matched(ms, x) ==> exists|p: int| 0 <= p < agg.len() && (#[trigger] agg[p]).0 == x
}

fn aggregate_scores(ms: &Vec<(usize, i64)>) -> (agg: Vec<(usize, i64)>)
    requires
        scores_fit(ms@),
    ensures
        is_aggregate(ms@, agg@),
{
    let mut agg: Vec<(usize, i64)> = Vec::new();
    let mut slot: HashMap<usize, usize> = HashMap::new();
    let mut i: usize = 0;
    proof {
        assert(slot@ =~= Map::<usize, usize>::empty());
    }
    while i < ms.len()
        invariant
            scores_fit(ms@),
            i <= ms.len(),
            forall|p: int|
                0 <= p < agg.len() ==> is_matched(ms@.take(i as int), (#[trigger] agg@[p]).0)
                    && agg@[p].1 == score_of(ms@.take(i as int), agg@[p].0),
            forall|p: int|
                0 <= p < agg.len() ==> slot@.contains_key((#[trigger] agg@[p]).0) && slot@[agg@[p].0] == p,
            forall|x: usize| #[trigger] slot@.contains_key(x) ==> slot@[x] < agg.len() && agg@[slot@[x] as int].0 == x,
            forall|x: usize| #[trigger] is_matched(ms@.take(i as int), x) ==> slot@.contains_key(x),
        decreases ms.len() - i,
    {
        let (idx, c) = ms[i];
        let ghost pre = ms@.take(i as int);
        proof {
            assert(ms@.take(i + 1) =~= pre.push((idx, c)));
            assert(ms@.take(i + 1).drop_last() =~= pre);
            assert(ms@.take(i + 1).last() == (idx, c));
            assert(i64::MIN <= score_of(ms@.take(i + 1), idx) <= i64::MAX);
            assert(ms@.take(i + 1)[i as int] == (idx, c));
            assert forall|x: usize| is_matched(pre, x) implies is_matched(ms@.take(i + 1), x) by {
                let j = choose|j: int| 0 <= j < pre.len() && (#[trigger] pre[j]).0 == x;
                assert(ms@.take(i + 1)[j] == pre[j]);
            }
            assert forall|x: usize| #[trigger] is_matched(ms@.take(i + 1), x) implies x == idx || is_matched(pre, x) by {
                let j = choose|j: int| 0 <= j < i + 1 && (#[trigger] ms@.take(i + 1)[j]).0 == x;
                if j < i {
                    assert(pre[j] == ms@.take(i + 1)[j]);
                }
            }
        }
        match slot.get(&idx) {
            Some(p) => {
                let p = *p;
                let (_, old) = agg[p];
                agg.set(p, (idx, old + c));
            },
            None => {
                proof {
                    lemma_score_unmatched(pre, idx);
                }
                let ghost old_slot = slot@;
                slot.insert(idx, agg.len());
                agg.push((idx, c));
                proof {
                    assert forall|x: usize| #[trigger] slot@.contains_key(x) implies slot@[x] < agg.len() && agg@[slot@[x] as int].0 == x by {
                        if x != idx {
                            assert(old_slot.contains_key(x));
                        }
                    }
                }
            },
        }
        i = i + 1;
    }
    proof {
        assert(ms@.take(ms.len() as int) =~= ms@);
        assert forall|p: int, q: int| 0 <= p < q < agg.len() implies (#[trigger] agg@[p]).0 != (#[trigger] agg@[q]).0 by {
            if agg@[p].0 == agg@[q].0 {
                assert(slot@[agg@[p].0] == p);
            }
        }
        assert forall|x: usize| #[trigger] is_matched(ms@, x) implies exists|p: int| 0 <= p < agg.len() && (#[trigger] agg@[p]).0 == x by {
            assert(agg@[slot@[x] as int].0 == x);
        }
    }
    agg
}

proof fn lemma_insert_at(s: Seq<(usize, i64)>, q: int, e: (usize, i64))
    requires
        0 <= q <= s.len(),
    ensures
        s.insert(q, e).len() == s.len() + 1,
        s.insert(q, e)[q] == e,
        forall|k: int| 0 <= k < q ==> #[trigger] s.insert(q, e)[k] == s[k],
        forall|k: int| q < k < s.len() + 1 ==> #[trigger] s.insert(q, e)[k] == s[k - 1],
{
}

proof fn lemma_sorted_after_insert(s: Seq<(usize, i64)>, q: int, e: (usize, i64))
    requires
        0 <= q <= s.len(),
        sorted_ranking(s),
        forall|k: int| 0 <= k < q ==> !ranks_above(e, #[trigger] s[k]),
        q < s.len() ==> ranks_above(e, s[q]),
        forall|k: int| 0 <= k < s.len() ==> (#[trigger] s[k]).0 != e.0,
    ensures
        sorted_ranking(s.insert(q, e)),
{
    lemma_insert_at(s, q, e);
    let r = s.insert(q, e);
    assert forall|a: int, b: int| 0 <= a < b < r.len() implies ranks_above(#[trigger] r[a], #[trigger] r[b]) by {
        if b < q {
            assert(r[a] == s[a] && r[b] == s[b]);
        } else if b == q {
            assert(r[a] == s[a]);
            assert(s[a].0 != e.0);
        } else if a == q {
            assert(r[b] == s[b - 1]);
            if b - 1 > q {
                assert(ranks_above(s[q], s[b - 1]));
            }
        } else if a < q {
            assert(r[a] == s[a] && r[b] == s[b - 1]);
        } else {
            assert(r[a] == s[a - 1] && r[b] == s[b - 1]);
        }
    }
}

fn insert_ranked(out: &mut Vec<(usize, i64)>, e: (usize, i64)) -> (q: usize)
    requires
        sorted_ranking(old(out)@),
        forall|k: int| 0 <= k < old(out)@.len() ==> (#[trigger] old(out)@[k]).0 != e.0,
    ensures
        q <= old(out)@.len(),
        final(out)@ == old(out)@.insert(q as int, e),
        sorted_ranking(final(out)@),
{
    let mut q: usize = 0;
    while q < out.len() && !(e.1 > out[q].1 || (e.1 == out[q].1 && e.0 < out[q].0))
        invariant
            q <= out.len(),
            forall|k: int| 0 <= k < q ==> !ranks_above(e, #[trigger] out@[k]),
        decreases out.len() - q,
    {
        q = q + 1;
    }
    proof {
        lemma_sorted_after_insert(out@, q as int, e);
    }
    out.insert(q, e);
    q
}

/// `out` lists the entries of `agg`: `pos` says where each entry went and
/// `src` where each listed entry came from.
pub open spec fn listed_as(out: Seq<(usize, i64)>, agg: Seq<(usize, i64)>, pos: Seq<int>, src: Seq<int>) -> bool {
    &&& pos.len() == agg.len()
    &&& src.len() == out.len()
    &&& forall|p: int| 0 <= p < agg.len() ==> 0 <= #[trigger] pos[p] < out.len() && out[pos[p]] == agg[p]
    &&& forall|k: int| 0 <= k < out.len() ==> 0 <= #[trigger] src[k] < agg.len() && out[k] == agg[src[k]]
}

fn sort_ranked(agg: &Vec<(usize, i64)>) -> (out: Vec<(usize, i64)>)
    requires
        forall|p: int, q: int| 0 <= p < q < agg.len() ==> (#[trigger] agg@[p]).0 != (#[trigger] agg@[q]).0,
    ensures
        sorted_ranking(out@),
        exists|pos: Seq<int>, src: Seq<int>| listed_as(out@, agg@, pos, src),
{
    let mut out: Vec<(usize, i64)> = Vec::new();
    let ghost mut pos: Seq<int> = Seq::empty();
    let ghost mut src: Seq<int> = Seq::empty();
    let mut t: usize = 0;
    while t < agg.len()
        invariant
            t <= agg.len(),
            forall|p: int, q: int| 0 <= p < q < agg.len() ==> (#[trigger] agg@[p]).0 != (#[trigger] agg@[q]).0,
            sorted_ranking(out@),
            listed_as(out@, agg@.take(t as int), pos, src),
        decreases agg.len() - t,
    {
        let e = agg[t];
        let ghost before = out@;
        proof {
            assert forall|k: int| 0 <= k < before.len() implies (#[trigger] before[k]).0 != e.0 by {
                let p = src[k];
                assert(agg@.take(t as int)[p] == agg@[p]);
            }
        }
        let q = insert_ranked(&mut out, e);
        proof {
            lemma_insert_at(before, q as int, e);
            let npos = Seq::new((t + 1) as nat, |p: int| if p == t { q as int } else if pos[p] >= q { pos[p] + 1 } else { pos[p] });
            let nsrc = src.insert(q as int, t as int);
            lemma_insert_at_int(src, q as int, t as int);
            let a = agg@.take(t + 1);
            assert forall|p: int| 0 <= p < a.len() implies 0 <= #[trigger] npos[p] < out@.len() && out@[npos[p]] == a[p] by {
                if p < t {
                    assert(a[p] == agg@.take(t as int)[p]);
                }
            }
            assert forall|k: int| 0 <= k < out@.len() implies 0 <= #[trigger] nsrc[k] < a.len() && out@[k] == a[nsrc[k]] by {
                if k < q {
                    assert(a[src[k]] == agg@.take(t as int)[src[k]]);
                } else if k > q {
                    assert(a[src[k - 1]] == agg@.take(t as int)[src[k - 1]]);
                }
            }
            pos = npos;
            src = nsrc;
        }
        t = t + 1;
    }
    proof {
        assert(agg@.take(agg.len() as int) =~= agg@);
    }
    out
}

proof fn lemma_insert_at_int(s: Seq<int>, q: int, e: int)
    requires
        0 <= q <= s.len(),
    ensures
        s.insert(q, e).len() == s.len() + 1,
        s.insert(q, e)[q] == e,
        forall|k: int| 0 <= k < q ==> #[trigger] s.insert(q, e)[k] == s[k],
        forall|k: int| q < k < s.len() + 1 ==> #[trigger] s.insert(q, e)[k] == s[k - 1],
{
}

/// Sums the counts per chunk and keeps the best `limit` chunks in search
/// order; `None` when nothing matched at all.
pub fn rank_matches(ms: &Vec<(usize, i64)>, limit: usize) -> (r: Option<Vec<(usize, i64)>>)
    requires
        scores_fit(ms@),
    ensures
        ms@.len() == 0 <==> r is None,
        r matches Some(top) ==> is_top_ranking(ms@, limit as int, top@),
{
    if ms.len() == 0 {
        return None;
    }
    let agg = aggregate_scores(ms);
    let mut out = sort_ranked(&agg);
    let ghost full = out@;
    let ghost (pos, src) = choose|pos: Seq<int>, src: Seq<int>| listed_as(full, agg@, pos, src);
    out.truncate(limit);
    proof {
        assert forall|idx: usize| #[trigger] is_matched(ms@, idx) implies (exists|k: int| 0 <= k < out.len() && (#[trigger] out@[k]).0 == idx)
            || (out.len() == limit && (limit == 0 || ranks_above(out@[limit - 1], (idx, score_of(ms@, idx) as i64)))) by {
            let p = choose|p: int| 0 <= p < agg@.len() && (#[trigger] agg@[p]).0 == idx;
            let k = pos[p];
            if k < out.len() {
                assert(out@[k] == full[k]);
            } else if limit > 0 {
                assert(out@[limit - 1] == full[limit - 1]);
                if limit - 1 < k {
                    assert(ranks_above(full[limit - 1], full[k]));
                }
            }
        }
        assert forall|k: int| 0 <= k < out.len() implies is_matched(ms@, (#[trigger] out@[k]).0) && out@[k].1 == score_of(ms@, out@[k].0) by {
            assert(out@[k] == full[k]);
            assert(full[k] == agg@[src[k]]);
        }
        assert forall|a: int, b: int| 0 <= a < b < out.len() implies ranks_above(#[trigger] out@[a], #[trigger] out@[b]) by {
            assert(out@[a] == full[a] && out@[b] == full[b]);
        }
    }
    Some(out)
}

/// The score given to chunks handed out when a query matches nothing.
pub const FIRST_CHUNK_SCORE: i64 = 1;

/// What a search does: look up the query's n-grams, or hand out the first
/// chunks of the book when the query has none.
#[derive(Debug, Clone)]
pub enum SearchPlan {
    FirstChunks,
    Lookup(Vec<String>),
}

pub fn plan_search(query: &str) -> (r: SearchPlan)
    ensures
        query_grams_of(query@).len() == 0 ==> r is FirstChunks,
        query_grams_of(query@).len() > 0 ==> (r matches SearchPlan::Lookup(gs) && gs@.map_values(
            |s: String| s@,
        ) == query_grams_of(query@)),
{
    let gs = query_grams(query);
    if gs.len() == 0 {
        proof {
            assert(gs@.map_values(|s: String| s@).len() == 0);
        }
        SearchPlan::FirstChunks
    } else {
        SearchPlan::Lookup(gs)
    }
}

/// A stored chunk presented as evidence: an 80-character preview and at
/// most 900 characters of text.
pub fn evidence_span(
    book_id: &str,
    chunk_index: usize,
    chapter_title: String,
    start_char: usize,
    end_char: usize,
    text: &str,
    score: i64,
) -> (r: EvidenceSpan)
    ensures
        r.chunk.book_id@ == book_id@,
        r.chunk.chunk_index == chunk_index,
        r.chunk.chapter_title == chapter_title,
        r.chunk.start_char == start_char,
        r.chunk.end_char == end_char,
        r.chunk.preview@ == take_chars(text@, 80),
        r.chunk.score == score,
        r.text@ == take_chars(text@, EVIDENCE_TEXT_MAX_CHARS as int),
{
    EvidenceSpan {
        chunk: ChunkRef {
            book_id: owned(book_id),
            chunk_index,
            chapter_title,
            start_char,
            end_char,
            preview: take_prefix(text, 80),
            score,
        },
        text: take_prefix(text, EVIDENCE_TEXT_MAX_CHARS),
    }
}

proof fn lemma_first_seen_distinct(g: Seq<Seq<char>>)
    ensures
        first_seen(g).no_duplicates(),
    decreases g.len(),
{
    if g.len() > 0 {
        lemma_first_seen_distinct(g.drop_last());
    }
}

proof fn lemma_contains_push(g: Seq<Seq<char>>, w: Seq<char>, x: Seq<char>)
    ensures
        g.push(w).contains(x) <==> g.contains(x) || w == x,
{
    if g.contains(x) {
        let j = choose|j: int| 0 <= j < g.len() && g[j] == x;
        assert(g.push(w)[j] == x);
    }
    if w == x {
        assert(g.push(w)[g.len() as int] == x);
    }
    if g.push(w).contains(x) {
        let j = choose|j: int| 0 <= j < g.push(w).len() && g.push(w)[j] == x;
        if j < g.len() {
            assert(g[j] == x);
        }
    }
}

proof fn lemma_first_seen_contains(g: Seq<Seq<char>>, x: Seq<char>)
    ensures
        first_seen(g).contains(x) <==> g.contains(x),
    decreases g.len(),
{
    if g.len() > 0 {
        let pre = g.drop_last();
        lemma_first_seen_contains(pre, x);
        assert(pre.push(g.last()) =~= g);
        lemma_contains_push(pre, g.last(), x);
        let d = first_seen(pre);
        lemma_contains_push(d, g.last(), x);
        if d.contains(g.last()) {
            lemma_first_seen_contains(pre, g.last());
        }
    }
}

proof fn lemma_occurrences_contains(g: Seq<Seq<char>>, x: Seq<char>)
    ensures
        occurrences(g, x) > 0 <==> g.contains(x),
    decreases g.len(),
{
    if g.len() > 0 {
        let pre = g.drop_last();
        lemma_occurrences_contains(pre, x);
        assert(pre.push(g.last()) =~= g);
        lemma_contains_push(pre, g.last(), x);
    }
}

proof fn lemma_contains_append(a: Seq<Seq<char>>, b: Seq<Seq<char>>, x: Seq<char>)
    ensures
        (a + b).contains(x) <==> a.contains(x) || b.contains(x),
{
    if a.contains(x) {
        let j = choose|j: int| 0 <= j < a.len() && a[j] == x;
        assert((a + b)[j] == x);
    }
    if b.contains(x) {
        let j = choose|j: int| 0 <= j < b.len() && b[j] == x;
        assert((a + b)[a.len() + j] == x);
    }
    if (a + b).contains(x) {
        let j = choose|j: int| 0 <= j < (a + b).len() && (a + b)[j] == x;
        if j < a.len() {
            assert(a[j] == x);
        } else {
            assert(b[j - a.len()] == x);
        }
    }
}

/// A text's query n-grams (before the cap) are exactly the n-grams it is
/// indexed under: the keys that `ngram_counts` lists for the same text.
pub proof fn query_and_index_grams_agree(text: Seq<char>, x: Seq<char>)
    ensures
        query_gram_order(normalized(text)).contains(x) <==> occurrences(
            chunk_grams(normalized(text)),
            x,
        ) > 0,
{
    let v = normalized(text);
    lemma_first_seen_contains(windows(v, 3) + windows(v, 2), x);
    lemma_contains_append(windows(v, 3), windows(v, 2), x);
    lemma_contains_append(windows(v, 2), windows(v, 3), x);
    lemma_occurrences_contains(chunk_grams(v), x);
}

/// `x` occurs in `g`, at a place where `y` has not yet occurred.
pub open spec fn occurs_before(g: Seq<Seq<char>>, x: Seq<char>, y: Seq<char>) -> bool {
    exists|k: int| 0 <= k < g.len() && #[trigger] g[k] == x && forall|l: int| 0 <= l <= k ==> #[trigger] g[l] != y
}

proof fn lemma_first_seen_order(g: Seq<Seq<char>>)
    ensures
        forall|i: int, j: int|
            0 <= i < j < first_seen(g).len() ==> occurs_before(g, #[trigger] first_seen(g)[i], #[trigger] first_seen(g)[j]),
    decreases g.len(),
{
    if g.len() > 0 {
        let pre = g.drop_last();
        let d = first_seen(pre);
        let fs = first_seen(g);
        lemma_first_seen_order(pre);
        assert forall|i: int, j: int| 0 <= i < j < fs.len() implies occurs_before(g, #[trigger] fs[i], #[trigger] fs[j]) by {
            assert(fs[i] == d[i]);
            if j < d.len() {
                assert(fs[j] == d[j]);
                assert(occurs_before(pre, d[i], d[j]));
                let k = choose|k: int| 0 <= k < pre.len() && #[trigger] pre[k] == d[i] && forall|l: int| 0 <= l <= k ==> #[trigger] pre[l] != d[j];
                assert(g[k] == pre[k]);
                assert forall|l: int| 0 <= l <= k implies #[trigger] g[l] != fs[j] by {
                    assert(g[l] == pre[l]);
                }
            } else {
                assert(fs[j] == g.last());
                assert(!d.contains(g.last()));
                lemma_first_seen_contains(pre, g.last());
                lemma_first_seen_contains(pre, d[i]);
                assert(d.contains(d[i]));
                let k = choose|k: int| 0 <= k < pre.len() && pre[k] == d[i];
                assert(g[k] == pre[k]);
                assert forall|l: int| 0 <= l <= k implies #[trigger] g[l] != fs[j] by {
                    assert(g[l] == pre[l]);
                    if pre[l] == g.last() {
                        assert(pre.contains(g.last()));
                    }
                }
            }
        }
    }
}

/// The n-grams of a text in the order a search tries them
/// (`ordered_ngrams`): each appears once; they are exactly the text's
/// trigrams and bigrams; every trigram comes before every bigram; and each
/// first occurs among the text's trigram windows, then bigram windows,
/// before the next one does.
pub proof fn ordered_ngrams_shape(text: Seq<char>)
    ensures
        ({
            let v = normalized(text);
            let g = windows(v, 3) + windows(v, 2);
            let r = query_gram_order(v);
            &&& r.no_duplicates()
            &&& forall|x: Seq<char>| r.contains(x) <==> windows(v, 3).contains(x) || windows(v, 2).contains(x)
            &&& forall|i: int, j: int| 0 <= i < j < r.len() && (#[trigger] r[j]).len() == 3 ==> (#[trigger] r[i]).len() == 3
            &&& forall|i: int, j: int| 0 <= i < j < r.len() ==> occurs_before(g, #[trigger] r[i], #[trigger] r[j])
        }),
{
    let v = normalized(text);
    let w3 = windows(v, 3);
    let w2 = windows(v, 2);
    let g = w3 + w2;
    let r = query_gram_order(v);
    lemma_first_seen_distinct(g);
    lemma_first_seen_order(g);
    assert forall|x: Seq<char>| r.contains(x) <==> w3.contains(x) || w2.contains(x) by {
        lemma_first_seen_contains(g, x);
        lemma_contains_append(w3, w2, x);
    }
    assert forall|m: int| 0 <= m < g.len() implies (#[trigger] g[m]).len() == (if m < w3.len() { 3int } else { 2int }) by {
        if m < w3.len() {
            assert(g[m] == w3[m]);
        } else {
            assert(g[m] == w2[m - w3.len()]);
        }
    }
    assert forall|i: int, j: int| 0 <= i < j < r.len() && (#[trigger] r[j]).len() == 3 implies (#[trigger] r[i]).len() == 3 by {
        if r[i].len() != 3 {
            assert(occurs_before(g, r[i], r[j]));
            let k = choose|k: int| 0 <= k < g.len() && #[trigger] g[k] == r[i] && forall|l: int| 0 <= l <= k ==> #[trigger] g[l] != r[j];
            assert(k >= w3.len());
            lemma_first_seen_contains(g, r[j]);
            assert(r.contains(r[j]));
            let m = choose|m: int| 0 <= m < g.len() && g[m] == r[j];
            assert(g[m].len() == 3);
            assert(m < w3.len());
            assert(g[m] != r[j]);
        }
    }
}

/// A search looks up each n-gram of its query once, and at most
/// `MAX_QUERY_NGRAMS` of them.
pub proof fn query_grams_are_distinct(query: Seq<char>)
    ensures
        query_grams_of(query).len() <= MAX_QUERY_NGRAMS,
        query_grams_of(query).no_duplicates(),
{
    let all = query_gram_order(normalized(query));
    lemma_first_seen_distinct(windows(normalized(query), 3) + windows(normalized(query), 2));
    if all.len() > MAX_QUERY_NGRAMS {
        let t = all.take(MAX_QUERY_NGRAMS as int);
        assert forall|i: int, j: int| 0 <= i < t.len() && 0 <= j < t.len() && i != j implies t[i] != t[j] by {
            assert(t[i] == all[i] && t[j] == all[j]);
        }
    }
}

} // verus!
