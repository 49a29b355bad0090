//! File-name arithmetic for the copier.
//!
//! A destination name is the source's file name, or — when that name is
//! taken — the stem with `_1`, `_2`, … spliced in before the extension.
//! `resolve_collision` picks the first free candidate and is proved to
//! return the candidate with the least index; termination rests on the
//! candidates being pairwise distinct, so a finite listing cannot hold
//! them all.

use vstd::prelude::*;
use vstd::seq_lib::seq_to_set_is_finite;
use vstd::set_lib::lemma_len_subset;
use vstd::string::StrSliceExecFns;
use vstd::string::StringExecFns;

use crate::decimal::dec_rep;
use crate::decimal::lemma_dec_rep_injective;
use crate::decimal::lemma_dec_rep_len;
use crate::decimal::u64_to_dec;

verus! {

/// Index of the last occurrence of `c` in `s`, if any.
pub open spec fn last_index_of(s: Seq<char>, c: char) -> Option<int>
    decreases s.len(),
{
    if s.len() == 0 {
        None
    } else if s[s.len() - 1] == c {
        Some(s.len() - 1)
    } else {
        last_index_of(s.drop_last(), c)
    }
}

pub proof fn lemma_last_index_of(s: Seq<char>, c: char)
    ensures
        match last_index_of(s, c) {
            Some(i) => 0 <= i < s.len() && s[i] == c && forall|j: int| i < j < s.len() ==> s[j] != c,
            None => forall|j: int| 0 <= j < s.len() ==> s[j] != c,
        },
    decreases s.len(),
{
    if s.len() > 0 && s[s.len() - 1] != c {
        lemma_last_index_of(s.drop_last(), c);
        match last_index_of(s.drop_last(), c) {
            Some(i) => {
                assert(s[i] == s.drop_last()[i]);
                assert forall|j: int| i < j < s.len() implies s[j] != c by {
                    if j < s.len() - 1 {
                        assert(s.drop_last()[j] != c);
                    }
                }
            },
            None => {
                assert forall|j: int| 0 <= j < s.len() implies s[j] != c by {
                    if j < s.len() - 1 {
                        assert(s.drop_last()[j] != c);
                    }
                }
            },
        }
    }
}

/// Finds the last occurrence of `c`, scanning from the end.
pub fn find_last(s: &str, c: char) -> (r: Option<usize>)
    ensures
        match r {
            Some(i) => last_index_of(s@, c) == Some(i as int),
            None => last_index_of(s@, c) is None,
        },
{
    let n = s.unicode_len();
    proof {
        assert(s@.take(n as int) =~= s@);
    }
    let mut i = n;
    while i > 0
        invariant
            i <= n,
            n == s@.len(),
            last_index_of(s@, c) == last_index_of(s@.take(i as int), c),
        decreases i,
    {
        let ch = s.get_char(i - 1);
        if ch == c {
            proof {
                assert(s@.take(i as int)[i - 1] == c);
            }
            return Some(i - 1);
        }
        proof {
            assert(s@.take(i as int).drop_last() =~= s@.take(i as int - 1));
        }
        i = i - 1;
    }
    proof {
        assert(s@.take(0).len() == 0);
    }
    None
}

/// Where the extension of a file name starts: `Some(i)` means the dot at
/// `i` separates stem from extension. A dot in first position does not
/// count (a leading-dot name such as ".config" has no extension).
pub open spec fn ext_split(name: Seq<char>) -> Option<int> {
    match last_index_of(name, '.') {
        Some(i) => if i > 0 {
            Some(i)
        } else {
            None
        },
        None => None,
    }
}

/// Extension-split position of a file name, as an index usable in code.
pub fn ext_split_at(name: &str) -> (r: Option<usize>)
    ensures
        match r {
            Some(i) => ext_split(name@) == Some(i as int),
            None => ext_split(name@) is None,
        },
{
    match find_last(name, '.') {
        Some(i) => if i > 0 {
            Some(i)
        } else {
            None
        },
        None => None,
    }
}

/// The file name carrying the numeric suffix `k`: the stem, an
/// underscore and the decimal digits of `k`, then the original
/// ".extension" tail if there was one.
pub open spec fn numbered_name(name: Seq<char>, k: nat) -> Seq<char> {
    match ext_split(name) {
        Some(i) => name.take(i) + seq!['_'] + dec_rep(k) + name.skip(i),
        None => name + seq!['_'] + dec_rep(k),
    }
}

/// The k-th candidate destination name: the name itself first, then the
/// numbered variants.
pub open spec fn dest_name(name: Seq<char>, k: nat) -> Seq<char> {
    if k == 0 {
        name
    } else {
        numbered_name(name, k)
    }
}

/// Builds the numbered candidate name in code.
pub fn make_numbered_name(name: &str, k: u64) -> (r: String)
    ensures
        r@ == numbered_name(name@, k as nat),
{
    let n = name.unicode_len();
    proof {
        reveal_strlit("_");
        assert("_"@ =~= seq!['_']);
        if ext_split(name@) is Some {
            lemma_last_index_of(name@, '.');
        }
    }
    match ext_split_at(name) {
        Some(i) => {
            let stem = name.substring_char(0, i);
            let tail = name.substring_char(i, n);
            let num = u64_to_dec(k);
            let mut s = String::from_str(stem);
            s.append("_");
            s.append(num.as_str());
            s.append(tail);
            proof {
                assert(stem@ =~= name@.take(ext_split(name@).unwrap()));
                assert(tail@ =~= name@.skip(ext_split(name@).unwrap()));
            }
            s
        },
        None => {
            let num = u64_to_dec(k);
            let mut s = String::from_str(name);
            s.append("_");
            s.append(num.as_str());
            s
        },
    }
}

/// A numbered name is the original name plus the underscore and digits.
pub proof fn lemma_numbered_name_len(name: Seq<char>, k: nat)
    ensures
        numbered_name(name, k).len() == name.len() + 1 + dec_rep(k).len(),
{
    match ext_split(name) {
        Some(i) => {
            lemma_last_index_of(name, '.');
            assert(name.take(i).len() == i);
            assert(name.skip(i).len() == name.len() - i);
            assert((name.take(i) + seq!['_']).len() == i + 1);
            assert((name.take(i) + seq!['_'] + dec_rep(k)).len() == i + 1 + dec_rep(k).len());
        },
        None => {
            assert((name + seq!['_']).len() == name.len() + 1);
        },
    }
}

/// Cancelling a common prefix and suffix: the middles of two equal
/// concatenations are equal.
proof fn lemma_affix_cancel(p: Seq<char>, s: Seq<char>, x: Seq<char>, y: Seq<char>)
    requires
        p + x + s == p + y + s,
    ensures
        x == y,
{
    assert((p + x).len() == p.len() + x.len());
    assert((p + y).len() == p.len() + y.len());
    assert((p + x + s).len() == (p + x).len() + s.len());
    assert((p + y + s).len() == (p + y).len() + s.len());
    assert(x.len() == y.len());
    assert forall|t: int| 0 <= t < x.len() implies x[t] == y[t] by {
        assert((p + x)[p.len() + t] == x[t]);
        assert((p + y)[p.len() + t] == y[t]);
        assert((p + x + s)[p.len() + t] == (p + x)[p.len() + t]);
        assert((p + y + s)[p.len() + t] == (p + y)[p.len() + t]);
    }
    assert(x =~= y);
}

/// Candidate destination names are pairwise distinct.
pub proof fn lemma_dest_name_injective(name: Seq<char>, j1: nat, j2: nat)
    requires
        j1 != j2,
    ensures
        dest_name(name, j1) != dest_name(name, j2),
{
    lemma_dec_rep_len(j1);
    lemma_dec_rep_len(j2);
    lemma_numbered_name_len(name, j1);
    lemma_numbered_name_len(name, j2);
    if j1 == 0 || j2 == 0 {
        // a numbered name is strictly longer than the name itself
        assert(dest_name(name, j1).len() != dest_name(name, j2).len());
    } else {
        if numbered_name(name, j1) == numbered_name(name, j2) {
            match ext_split(name) {
                Some(i) => {
                    lemma_last_index_of(name, '.');
                    assert(name.take(i) + seq!['_'] + dec_rep(j1) + name.skip(i) == name.take(i)
                        + seq!['_'] + dec_rep(j2) + name.skip(i));
                    assert((name.take(i) + seq!['_']) + dec_rep(j1) + name.skip(i) =~= name.take(i)
                        + seq!['_'] + dec_rep(j1) + name.skip(i));
                    assert((name.take(i) + seq!['_']) + dec_rep(j2) + name.skip(i) =~= name.take(i)
                        + seq!['_'] + dec_rep(j2) + name.skip(i));
                    lemma_affix_cancel(
                        name.take(i) + seq!['_'],
                        name.skip(i),
                        dec_rep(j1),
                        dec_rep(j2),
                    );
                },
                None => {
                    assert((name + seq!['_']) + dec_rep(j1) + Seq::<char>::empty() =~= name
                        + seq!['_'] + dec_rep(j1));
                    assert((name + seq!['_']) + dec_rep(j2) + Seq::<char>::empty() =~= name
                        + seq!['_'] + dec_rep(j2));
                    lemma_affix_cancel(
                        name + seq!['_'],
                        Seq::<char>::empty(),
                        dec_rep(j1),
                        dec_rep(j2),
                    );
                },
            }
            lemma_dec_rep_injective(j1, j2);
        }
    }
}

/// The set of the first `m` candidate names.
spec fn cand_set(name: Seq<char>, m: nat) -> Set<Seq<char>>
    decreases m,
{
    if m == 0 {
        Set::empty()
    } else {
        cand_set(name, (m - 1) as nat).insert(dest_name(name, (m - 1) as nat))
    }
}

proof fn lemma_cand_set(name: Seq<char>, m: nat)
    ensures
        cand_set(name, m).finite(),
        cand_set(name, m).len() == m,
        forall|x: Seq<char>| cand_set(name, m).contains(x) <==> exists|j: nat|
            j < m && x == #[trigger] dest_name(name, j),
    decreases m,
{
    if m > 0 {
        let prev = (m - 1) as nat;
        lemma_cand_set(name, prev);
        assert forall|j: nat| j < prev implies dest_name(name, prev) != #[trigger] dest_name(
            name,
            j,
        ) by {
            lemma_dest_name_injective(name, prev, j);
        }
        assert(!cand_set(name, prev).contains(dest_name(name, prev)));
        assert forall|x: Seq<char>| cand_set(name, m).contains(x) implies exists|j: nat|
            j < m && x == #[trigger] dest_name(name, j) by {
            if x == dest_name(name, prev) {
                assert(prev < m && x == dest_name(name, prev));
            }
        }
        assert forall|x: Seq<char>|
            exists|j: nat| j < m && x == #[trigger] dest_name(name, j) implies cand_set(
            name,
            m,
        ).contains(x) by {
            let j = choose|j: nat| j < m && x == dest_name(name, j);
            if j < prev {
                assert(cand_set(name, prev).contains(x));
            }
        }
    }
}

/// Pigeonhole: if every candidate up to index `k` stands in the listing,
/// the listing has more than `k` entries.
pub proof fn lemma_candidates_bound(listing: Seq<Seq<char>>, name: Seq<char>, k: nat)
    requires
        forall|j: nat| j <= k ==> listing.contains(#[trigger] dest_name(name, j)),
    ensures
        k + 1 <= listing.len(),
{
    broadcast use seq_to_set_is_finite;

    lemma_cand_set(name, k + 1);
    assert(cand_set(name, k + 1).subset_of(listing.to_set()));
    lemma_len_subset(cand_set(name, k + 1), listing.to_set());
    listing.lemma_cardinality_of_set();
}

/// No candidate with index up to `k` is free, and the one at `k` is:
/// the resolution stops exactly at `k`.
pub open spec fn resolved_at(listing: Seq<Seq<char>>, name: Seq<char>, k: nat) -> bool {
    &&& !listing.contains(dest_name(name, k))
    &&& forall|j: nat| j < k ==> listing.contains(#[trigger] dest_name(name, j))
}

/// The index a resolution stops at is determined by the listing and the
/// name alone: two resolutions of the same request agree.
pub proof fn lemma_resolved_index_unique(
    listing: Seq<Seq<char>>,
    name: Seq<char>,
    k1: nat,
    k2: nat,
)
    requires
        resolved_at(listing, name, k1),
        resolved_at(listing, name, k2),
    ensures
        k1 == k2,
{
    if k1 < k2 {
        assert(listing.contains(dest_name(name, k1)));
    }
    if k2 < k1 {
        assert(listing.contains(dest_name(name, k2)));
    }
}

/// Adding a copy's result to the directory and copying again resolves
/// to a strictly larger counter: repeated copies of the same file climb
/// through the numbered names monotonically.
pub proof fn lemma_repeat_copy_increases(
    listing: Seq<Seq<char>>,
    name: Seq<char>,
    k1: nat,
    k2: nat,
)
    requires
        resolved_at(listing, name, k1),
        resolved_at(listing.push(dest_name(name, k1)), name, k2),
    ensures
        k2 > k1,
{
    let pushed = listing.push(dest_name(name, k1));
    if k2 == k1 {
        assert(pushed[listing.len() as int] == dest_name(name, k1));
        assert(pushed.contains(dest_name(name, k1)));
    } else if k2 < k1 {
        assert(listing.contains(dest_name(name, k2)));
        let i = choose|i: int| 0 <= i < listing.len() && listing[i] == dest_name(name, k2);
        assert(pushed[i] == dest_name(name, k2));
        assert(pushed.contains(dest_name(name, k2)));
    }
}

/// Whether the listing holds this exact name.
fn listing_contains(listing: &Vec<String>, name: &String) -> (r: bool)
    ensures
        r == listing.deep_view().contains(name@),
{
    let mut j: usize = 0;
    while j < listing.len()
        invariant
            j <= listing.len(),
            forall|t: int| 0 <= t < j ==> listing.deep_view()[t] != name@,
        decreases listing.len() - j,
    {
        if listing[j] == *name {
            proof {
                assert(listing.deep_view()[j as int] == name@);
            }
            return true;
        }
        j = j + 1;
    }
    false
}

/// Picks the first free destination name: the file name itself when the
/// target holds no entry of that name, else the numbered variant with the
/// least counter that is still free.
pub fn resolve_collision(existing: &Vec<String>, name: &String) -> (r: String)
    ensures
        exists|k: nat|
            #[trigger] resolved_at(existing.deep_view(), name@, k) && r@ == dest_name(name@, k),
        !existing.deep_view().contains(name@) ==> r@ == name@,
        !existing.deep_view().contains(r@),
{
    if !listing_contains(existing, name) {
        proof {
            assert(resolved_at(existing.deep_view(), name@, 0) && name@ == dest_name(name@, 0));
        }
        return name.clone();
    }
    let mut k: u64 = 1;
    let mut cand: String = make_numbered_name(name.as_str(), k);
    while listing_contains(existing, &cand)
        invariant
            1 <= k,
            k <= existing.deep_view().len() + 1,
            cand@ == numbered_name(name@, k as nat),
            existing.deep_view().contains(dest_name(name@, 0)),
            forall|j: nat| 1 <= j < k ==> existing.deep_view().contains(
                #[trigger] dest_name(name@, j),
            ),
        decreases existing.deep_view().len() + 1 - k,
    {
        proof {
            assert forall|j: nat| j <= k as nat implies existing.deep_view().contains(
                #[trigger] dest_name(name@, j),
            ) by {
                if j == k as nat {
                    assert(existing.deep_view().contains(cand@));
                }
            }
            lemma_candidates_bound(existing.deep_view(), name@, k as nat);
            assert(existing.len() == existing@.len());
            assert(k + 1 <= existing@.len());
        }
        k = k + 1;
        cand = make_numbered_name(name.as_str(), k);
    }
    proof {
        assert(resolved_at(existing.deep_view(), name@, k as nat) && cand@ == dest_name(
            name@,
            k as nat,
        ));
    }
    cand
}

} // verus!
