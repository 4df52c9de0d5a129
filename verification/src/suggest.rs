use vstd::prelude::*;

verus! {

pub open spec fn min3(a: nat, b: nat, c: nat) -> nat {
    if a <= b && a <= c {
        a
    } else if b <= c {
        b
    } else {
        c
    }
}

/// The Levenshtein distance between two character sequences: the fewest
/// insertions, deletions and substitutions that turn `a` into `b`.
pub open spec fn edit_distance(a: Seq<char>, b: Seq<char>) -> nat
    decreases a.len() + b.len(),
{
    if a.len() == 0 {
        b.len()
    } else if b.len() == 0 {
        a.len()
    } else {
        let sub: nat = if a.last() == b.last() { 0 } else { 1 };
        min3(
            edit_distance(a.drop_last(), b) + 1,
            edit_distance(a, b.drop_last()) + 1,
            edit_distance(a.drop_last(), b.drop_last()) + sub,
        )
    }
}

/// How far a candidate may be from the misspelled name and still be suggested.
pub open spec fn max_suggestion_distance() -> nat {
    2
}

/// Whether a candidate takes part in the search: its length and the name's
/// together fit in a machine word, and it lies within the allowed distance.
pub open spec fn considered(name: Seq<char>, cand: Seq<char>) -> bool {
    &&& name.len() + cand.len() < usize::MAX
    &&& edit_distance(name, cand) <= max_suggestion_distance()
}

/// Whether `cands[i]` is the suggestion for `name`: it takes part, it is strictly
/// closer than every earlier candidate that takes part, and no farther than
/// every later one.
pub open spec fn is_closest(name: Seq<char>, cands: Seq<Seq<char>>, i: int) -> bool {
    &&& 0 <= i < cands.len()
    &&& considered(name, cands[i])
    &&& forall|j: int|
        0 <= j < i && considered(name, #[trigger] cands[j]) ==> edit_distance(name, cands[j])
            > edit_distance(name, cands[i])
    &&& forall|j: int|
        i < j < cands.len() && considered(name, #[trigger] cands[j]) ==> edit_distance(
            name,
            cands[j],
        ) >= edit_distance(name, cands[i])
}

/// The candidate to suggest for a misspelled `name`: the first of the nearest
/// candidates, when it lies within the allowed distance.
pub open spec fn closest(name: Seq<char>, cands: Seq<Seq<char>>) -> Option<Seq<char>> {
    if exists|i: int| is_closest(name, cands, i) {
        Some(cands[choose|i: int| is_closest(name, cands, i)])
    } else {
        None
    }
}

/// At most one candidate is the suggestion.
pub proof fn lemma_closest_unique(name: Seq<char>, cands: Seq<Seq<char>>, i: int, j: int)
    requires
        is_closest(name, cands, i),
        is_closest(name, cands, j),
    ensures
        i == j,
{
    if i < j {
        assert(considered(name, cands[i]));
    } else if j < i {
        assert(considered(name, cands[j]));
    }
}

/// The views of a vector of strings.
pub open spec fn string_views(v: Seq<String>) -> Seq<Seq<char>> {
    v.map_values(|s: String| s@)
}

/// The characters of `s`, one by one.
pub fn chars_of(s: &str) -> (v: Vec<char>)
    ensures
        v@ == s@,
{
    let n = s.unicode_len();
    let mut v: Vec<char> = Vec::new();
    let mut i: usize = 0;
    while i < n
        invariant
            n == s@.len(),
            i <= n,
            v@ == s@.take(i as int),
        decreases n - i,
    {
        let c = s.get_char(i);
        v.push(c);
        i = i + 1;
        proof {
            assert(v@ =~= s@.take(i as int));
        }
    }
    proof {
        assert(s@.take(n as int) =~= s@);
    }
    v
}

/// The name among `candidates` to suggest in place of `name`, if any: the first
/// of those nearest to it, within an edit distance of two.
pub fn closest_match(name: &str, candidates: &Vec<String>) -> (r: Option<String>)
    ensures
        match r {
            Some(s) => closest(name@, string_views(candidates@)) == Some(s@),
            None => closest(name@, string_views(candidates@)) is None,
        },
{
    let ghost cands = string_views(candidates@);
    let nc = chars_of(name);
    let mut best: Option<usize> = None;
    let mut best_d: usize = 0;
    let mut i: usize = 0;
    while i < candidates.len()
        invariant
            i <= candidates.len(),
            cands == string_views(candidates@),
            nc@ == name@,
            match best {
                Some(b) => {
                    &&& b < i
                    &&& best_d == edit_distance(name@, cands[b as int])
                    &&& considered(name@, cands[b as int])
                    &&& forall|j: int|
                        0 <= j < b && considered(name@, #[trigger] cands[j]) ==> edit_distance(
                            name@,
                            cands[j],
                        ) > best_d
                    &&& forall|j: int|
                        b < j < i && considered(name@, #[trigger] cands[j]) ==> edit_distance(
                            name@,
                            cands[j],
                        ) >= best_d
                },
                None => forall|j: int| 0 <= j < i ==> !considered(name@, #[trigger] cands[j]),
            },
        decreases candidates.len() - i,
    {
        let cc = chars_of(candidates[i].as_str());
        proof {
            assert(cands[i as int] == candidates@[i as int]@);
        }
        if nc.len() < usize::MAX - cc.len() {
            let d = levenshtein(&nc, &cc);
            if d <= 2 {
                match best {
                    Some(_) => {
                        if d < best_d {
                            best = Some(i);
                            best_d = d;
                        }
                    },
                    None => {
                        best = Some(i);
                        best_d = d;
                    },
                }
            }
        }
        i = i + 1;
    }
    match best {
        Some(b) => {
            proof {
                assert(is_closest(name@, cands, b as int));
                lemma_closest_unique_choice(name@, cands, b as int);
            }
            Some(crate::text::copy_string(&candidates[b]))
        },
        None => {
            proof {
                assert forall|k: int| !is_closest(name@, cands, k) by {
                    if 0 <= k < cands.len() {
                        assert(!considered(name@, cands[k]));
                    }
                }
            }
            None
        },
    }
}

proof fn lemma_closest_unique_choice(name: Seq<char>, cands: Seq<Seq<char>>, i: int)
    requires
        is_closest(name, cands, i),
    ensures
        closest(name, cands) == Some(cands[i]),
{
    let k = choose|k: int| is_closest(name, cands, k);
    lemma_closest_unique(name, cands, i, k);
}

proof fn lemma_edit_distance_bounds(a: Seq<char>, b: Seq<char>)
    ensures
        edit_distance(a, b) <= a.len() + b.len(),
    decreases a.len() + b.len(),
{
    if a.len() > 0 && b.len() > 0 {
        lemma_edit_distance_bounds(a.drop_last(), b);
    }
}

/// The edit distance between `a` and `b`, computed row by row.
pub fn levenshtein(a: &Vec<char>, b: &Vec<char>) -> (d: usize)
    requires
        a.len() + b.len() < usize::MAX,
    ensures
        d == edit_distance(a@, b@),
{
    let n = a.len();
    let m = b.len();
    let mut prev: Vec<usize> = Vec::new();
    let mut j: usize = 0;
    while j <= m
        invariant
            j <= m + 1,
            m == b.len(),
            m < usize::MAX,
            prev.len() == j,
            forall|k: int| 0 <= k < j ==> #[trigger] prev@[k] == edit_distance(a@.take(0), b@.take(k)),
        decreases m + 1 - j,
    {
        proof {
            assert(a@.take(0).len() == 0);
        }
        prev.push(j);
        j = j + 1;
    }
    let mut i: usize = 1;
    while i <= n
        invariant
            1 <= i <= n + 1,
            n == a.len(),
            m == b.len(),
            n + m < usize::MAX,
            prev.len() == m + 1,
            forall|k: int| 0 <= k <= m ==> #[trigger] prev@[k] == edit_distance(a@.take(i - 1), b@.take(k)),
        decreases n + 1 - i,
    {
        let mut cur: Vec<usize> = Vec::new();
        proof {
            assert(a@.take(i as int).len() == i);
            assert(b@.take(0).len() == 0);
        }
        cur.push(i);
        let mut k: usize = 1;
        while k <= m
            invariant
                1 <= i <= n,
                1 <= k <= m + 1,
                n == a.len(),
                m == b.len(),
                n + m < usize::MAX,
                prev.len() == m + 1,
                cur.len() == k,
                forall|q: int| 0 <= q <= m ==> #[trigger] prev@[q] == edit_distance(a@.take(i - 1), b@.take(q)),
                forall|q: int| 0 <= q < k ==> #[trigger] cur@[q] == edit_distance(a@.take(i as int), b@.take(q)),
            decreases m + 1 - k,
        {
            let ghost aa = a@.take(i as int);
            let ghost bb = b@.take(k as int);
            proof {
                assert(aa.drop_last() =~= a@.take(i - 1));
                assert(bb.drop_last() =~= b@.take(k - 1));
                assert(aa.last() == a@[i - 1]);
                assert(bb.last() == b@[k - 1]);
                lemma_edit_distance_bounds(a@.take(i - 1), b@.take(k as int));
                lemma_edit_distance_bounds(aa, b@.take(k - 1));
                lemma_edit_distance_bounds(a@.take(i - 1), b@.take(k - 1));
            }
            let del = prev[k] + 1;
            let ins = cur[k - 1] + 1;
            let sub = if a[i - 1] == b[k - 1] { prev[k - 1] } else { prev[k - 1] + 1 };
            let best = if del <= ins && del <= sub {
                del
            } else if ins <= sub {
                ins
            } else {
                sub
            };
            cur.push(best);
            k = k + 1;
        }
        prev = cur;
        i = i + 1;
    }
    proof {
        assert(a@.take(n as int) =~= a@);
        assert(b@.take(m as int) =~= b@);
    }
    prev[m]
}

} // verus!
