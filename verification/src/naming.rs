//! Collision-free naming of log files.
//!
//! A file opened under a rotation stamp is named `prefix + stamp + suffix`.
//! When that name is already present in the directory, the names
//! `prefix + stamp + "-1" + suffix`, `-2`, `-3`, ... are probed in order and
//! the first free one is chosen.

use vstd::prelude::*;
use vstd::seq_lib::*;
use vstd::set_lib::lemma_len_subset;
use vstd::string::StringExecFns;

verus! {

broadcast use vstd::seq_lib::group_seq_properties;

/// The character for the decimal digit `d`.
pub open spec fn digit_char(d: nat) -> char {
    if d == 0 {
        '0'
    } else if d == 1 {
        '1'
    } else if d == 2 {
        '2'
    } else if d == 3 {
        '3'
    } else if d == 4 {
        '4'
    } else if d == 5 {
        '5'
    } else if d == 6 {
        '6'
    } else if d == 7 {
        '7'
    } else if d == 8 {
        '8'
    } else {
        '9'
    }
}

/// The decimal rendering of `n`, most significant digit first.
pub open spec fn decimal(n: nat) -> Seq<char>
    decreases n,
{
    if n < 10 {
        seq![digit_char(n)]
    } else {
        decimal(n / 10).push(digit_char(n % 10))
    }
}

/// The name probed for index `i`: the bare base name when `i == 0`, the base
/// name with the infix `-i` before the suffix otherwise.
pub open spec fn candidate_name(
    prefix: Seq<char>,
    stamp: Seq<char>,
    suffix: Seq<char>,
    i: nat,
) -> Seq<char> {
    if i == 0 {
        prefix + stamp + suffix
    } else {
        prefix + stamp + seq!['-'] + decimal(i) + suffix
    }
}

proof fn lemma_decimal_len(n: nat)
    ensures
        decimal(n).len() >= 1,
        n >= 10 ==> decimal(n).len() >= 2,
    decreases n,
{
    if n >= 10 {
        lemma_decimal_len(n / 10);
    }
}

proof fn lemma_decimal_injective(a: nat, b: nat)
    requires
        decimal(a) == decimal(b),
    ensures
        a == b,
    decreases a,
{
    lemma_decimal_len(a);
    lemma_decimal_len(b);
    if a < 10 && b < 10 {
        assert(decimal(a) == seq![digit_char(a)]);
        assert(decimal(b) == seq![digit_char(b)]);
        assert(seq![digit_char(a)].len() == 1 && seq![digit_char(a)][0] == digit_char(a));
        assert(seq![digit_char(b)].len() == 1 && seq![digit_char(b)][0] == digit_char(b));
        assert(digit_char(a) == digit_char(b));
        assert(a == b) by {
            if a != b {
                assert(digit_char(a) != digit_char(b));
            }
        }
    } else if a < 10 {
        assert(decimal(a) == seq![digit_char(a)]);
        assert(decimal(a).len() == 1);
        assert(decimal(b).len() >= 2);
    } else if b < 10 {
        assert(decimal(b) == seq![digit_char(b)]);
        assert(decimal(b).len() == 1);
        assert(decimal(a).len() >= 2);
    } else {
        assert(decimal(a) == decimal(a / 10).push(digit_char(a % 10)));
        assert(decimal(b) == decimal(b / 10).push(digit_char(b % 10)));
        assert(decimal(a).last() == digit_char(a % 10));
        assert(decimal(b).last() == digit_char(b % 10));
        assert(a % 10 == b % 10);
        assert(decimal(a).drop_last() =~= decimal(a / 10));
        assert(decimal(b).drop_last() =~= decimal(b / 10));
        lemma_decimal_injective(a / 10, b / 10);
        assert(a == 10 * (a / 10) + a % 10);
        assert(b == 10 * (b / 10) + b % 10);
    }
}

proof fn lemma_candidate_injective(
    prefix: Seq<char>,
    stamp: Seq<char>,
    suffix: Seq<char>,
    i: nat,
    j: nat,
)
    requires
        candidate_name(prefix, stamp, suffix, i) == candidate_name(prefix, stamp, suffix, j),
    ensures
        i == j,
{
    lemma_decimal_len(i);
    lemma_decimal_len(j);
    let head = prefix + stamp;
    let base_len = prefix.len() + stamp.len() + suffix.len();
    assert(i > 0 ==> candidate_name(prefix, stamp, suffix, i).len() == base_len + 1 + decimal(
        i,
    ).len());
    assert(j > 0 ==> candidate_name(prefix, stamp, suffix, j).len() == base_len + 1 + decimal(
        j,
    ).len());
    assert(candidate_name(prefix, stamp, suffix, 0).len() == base_len);
    if i != 0 && j != 0 {
        let di = decimal(i);
        let dj = decimal(j);
        if di.len() == dj.len() {
            let off = head.len() + 1;
            assert forall|k: int| 0 <= k < di.len() implies di[k] == dj[k] by {
                assert(candidate_name(prefix, stamp, suffix, i)[off + k] == di[k]);
                assert(candidate_name(prefix, stamp, suffix, j)[off + k] == dj[k]);
            }
            assert(di =~= dj);
            lemma_decimal_injective(i, j);
        }
    }
}

/// The set of the first `k` candidate names.
spec fn candidate_set(prefix: Seq<char>, stamp: Seq<char>, suffix: Seq<char>, k: nat) -> Set<
    Seq<char>,
>
    decreases k,
{
    if k == 0 {
        Set::empty()
    } else {
        candidate_set(prefix, stamp, suffix, (k - 1) as nat).insert(
            candidate_name(prefix, stamp, suffix, (k - 1) as nat),
        )
    }
}

proof fn lemma_candidate_set(prefix: Seq<char>, stamp: Seq<char>, suffix: Seq<char>, k: nat)
    ensures
        candidate_set(prefix, stamp, suffix, k).finite(),
        candidate_set(prefix, stamp, suffix, k).len() == k,
        forall|x: Seq<char>|
            candidate_set(prefix, stamp, suffix, k).contains(x) <==> exists|j: nat|
                j < k && x == candidate_name(prefix, stamp, suffix, j),
    decreases k,
{
    if k > 0 {
        let prev = (k - 1) as nat;
        lemma_candidate_set(prefix, stamp, suffix, prev);
        let last = candidate_name(prefix, stamp, suffix, prev);
        if candidate_set(prefix, stamp, suffix, prev).contains(last) {
            let j = choose|j: nat| j < prev && last == candidate_name(prefix, stamp, suffix, j);
            lemma_candidate_injective(prefix, stamp, suffix, j, prev);
            assert(false);
        }
        assert forall|x: Seq<char>|
            candidate_set(prefix, stamp, suffix, k).contains(x) implies exists|j: nat|
            j < k && x == candidate_name(prefix, stamp, suffix, j) by {
            if x == last {
                assert(prev < k && x == candidate_name(prefix, stamp, suffix, prev));
            }
        }
        assert forall|x: Seq<char>|
            (exists|j: nat| j < k && x == candidate_name(prefix, stamp, suffix, j))
            implies candidate_set(prefix, stamp, suffix, k).contains(x) by {
            let j = choose|j: nat| j < k && x == candidate_name(prefix, stamp, suffix, j);
            if j < prev {
                assert(candidate_set(prefix, stamp, suffix, prev).contains(x));
            }
        }
    }
}

/// If every one of the first `k` candidates is already present among
/// `existing`, then `existing` holds at least `k` entries: the candidates are
/// pairwise distinct, so they cannot all fit in a smaller directory.
proof fn lemma_probe_exhausts(
    existing: Seq<Seq<char>>,
    prefix: Seq<char>,
    stamp: Seq<char>,
    suffix: Seq<char>,
    k: nat,
)
    requires
        forall|j: nat| j < k ==> existing.contains(candidate_name(prefix, stamp, suffix, j)),
    ensures
        k <= existing.len(),
{
    broadcast use seq_to_set_is_finite;

    let cs = candidate_set(prefix, stamp, suffix, k);
    lemma_candidate_set(prefix, stamp, suffix, k);
    assert forall|x: Seq<char>| cs.contains(x) implies existing.to_set().contains(x) by {
        let j = choose|j: nat| j < k && x == candidate_name(prefix, stamp, suffix, j);
        assert(existing.contains(x));
    }
    lemma_len_subset(cs, existing.to_set());
    existing.lemma_cardinality_of_set();
}

/// What `allocate_name` promises of its choice: the chosen name is the
/// candidate of some index `i`, it is not present among `existing`, and every
/// candidate of a smaller index is.
pub open spec fn allocation_ok(
    existing: Seq<Seq<char>>,
    prefix: Seq<char>,
    stamp: Seq<char>,
    suffix: Seq<char>,
    chosen: Seq<char>,
) -> bool {
    exists|i: nat|
        chosen == candidate_name(prefix, stamp, suffix, i) && !existing.contains(chosen) && (
        forall|j: nat| j < i ==> existing.contains(candidate_name(prefix, stamp, suffix, j)))
}

/// The string `0`, `1`, ..., `9` for a digit below ten.
fn digit_str(d: usize) -> (r: &'static str)
    requires
        d < 10,
    ensures
        r@ == seq![digit_char(d as nat)],
{
    proof {
        reveal_strlit("0");
        reveal_strlit("1");
        reveal_strlit("2");
        reveal_strlit("3");
        reveal_strlit("4");
        reveal_strlit("5");
        reveal_strlit("6");
        reveal_strlit("7");
        reveal_strlit("8");
        reveal_strlit("9");
    }
    if d == 0 {
        "0"
    } else if d == 1 {
        "1"
    } else if d == 2 {
        "2"
    } else if d == 3 {
        "3"
    } else if d == 4 {
        "4"
    } else if d == 5 {
        "5"
    } else if d == 6 {
        "6"
    } else if d == 7 {
        "7"
    } else if d == 8 {
        "8"
    } else {
        "9"
    }
}

/// Renders `n` in decimal.
fn decimal_string(n: usize) -> (r: String)
    ensures
        r@ == decimal(n as nat),
    decreases n,
{
    if n < 10 {
        let mut s = String::new();
        s.append(digit_str(n));
        proof {
            assert(s@ =~= decimal(n as nat));
        }
        s
    } else {
        let mut s = decimal_string(n / 10);
        s.append(digit_str(n % 10));
        proof {
            assert(s@ =~= decimal(n as nat));
        }
        s
    }
}

/// Builds the candidate name of index `i`.
fn build_candidate(prefix: &str, stamp: &str, suffix: &str, i: usize) -> (r: String)
    ensures
        r@ == candidate_name(prefix@, stamp@, suffix@, i as nat),
{
    let mut s = String::new();
    s.append(prefix);
    s.append(stamp);
    if i > 0 {
        s.append("-");
        let d = decimal_string(i);
        s.append(d.as_str());
        proof {
            reveal_strlit("-");
            assert(s@ =~= prefix@ + stamp@ + seq!['-'] + decimal(i as nat));
        }
    }
    s.append(suffix);
    proof {
        assert(s@ =~= candidate_name(prefix@, stamp@, suffix@, i as nat));
    }
    s
}

/// True when some entry of `existing` is exactly `name`.
fn name_taken(existing: &Vec<String>, name: &String) -> (b: bool)
    ensures
        b == existing.deep_view().contains(name@),
{
    let n = existing.len();
    let mut k: usize = 0;
    while k < n
        invariant
            n == existing.len(),
            k <= n,
            forall|j: int| 0 <= j < k ==> existing.deep_view()[j] != name@,
        decreases n - k,
    {
        if existing[k].eq(name) {
            assert(existing.deep_view()[k as int] == name@);
            return true;
        }
        k = k + 1;
    }
    false
}

/// Picks the first free candidate name for `stamp` under `prefix`/`suffix`:
/// the bare base name when it is unused, else the first unused of the base
/// names with `-1`, `-2`, ... appended before the suffix.  The chosen name
/// never collides with an entry of `existing`.
pub fn allocate_name(existing: &Vec<String>, prefix: &str, stamp: &str, suffix: &str) -> (chosen:
    String)
    ensures
        allocation_ok(existing.deep_view(), prefix@, stamp@, suffix@, chosen@),
        !existing.deep_view().contains(chosen@),
{
    let ghost ex = existing.deep_view();
    let n = existing.len();
    proof {
        assert(ex.len() == existing@.len());
    }
    let mut idx: usize = 0;
    let mut name = build_candidate(prefix, stamp, suffix, 0);
    let mut taken = name_taken(existing, &name);
    while taken
        invariant
            ex == existing.deep_view(),
            n == ex.len(),
            idx <= n,
            name@ == candidate_name(prefix@, stamp@, suffix@, idx as nat),
            taken == ex.contains(name@),
            forall|j: nat| j < idx ==> ex.contains(candidate_name(prefix@, stamp@, suffix@, j)),
        decreases ex.len() - idx,
    {
        proof {
            lemma_probe_exhausts(ex, prefix@, stamp@, suffix@, idx as nat + 1);
        }
        idx = idx + 1;
        name = build_candidate(prefix, stamp, suffix, idx);
        taken = name_taken(existing, &name);
    }
    proof {
        assert(name@ == candidate_name(prefix@, stamp@, suffix@, idx as nat) && !ex.contains(name@)
            && (forall|j: nat|
            j < idx as nat ==> ex.contains(candidate_name(prefix@, stamp@, suffix@, j))));
    }
    name
}

/// One run of allocations against a directory that starts as `existing`:
/// each name in `names` satisfies `allocation_ok` against the directory as
/// the earlier allocations left it.
pub open spec fn allocation_run(
    existing: Seq<Seq<char>>,
    prefix: Seq<char>,
    stamp: Seq<char>,
    suffix: Seq<char>,
    names: Seq<Seq<char>>,
) -> bool
    decreases names.len(),
{
    names.len() == 0 || (allocation_ok(existing, prefix, stamp, suffix, names[0])
        && allocation_run(existing.push(names[0]), prefix, stamp, suffix, names.drop_first()))
}

/// Naming is collision free: however many allocations run in a row for the
/// same stamp, each seeing the names the earlier ones created, the chosen
/// names are pairwise distinct and none collides with a pre-existing file.
pub proof fn lemma_allocation_run_fresh(
    existing: Seq<Seq<char>>,
    prefix: Seq<char>,
    stamp: Seq<char>,
    suffix: Seq<char>,
    names: Seq<Seq<char>>,
)
    requires
        allocation_run(existing, prefix, stamp, suffix, names),
    ensures
        names.no_duplicates(),
        forall|k: int| 0 <= k < names.len() ==> !existing.contains(names[k]),
    decreases names.len(),
{
    if names.len() > 0 {
        let first = names[0];
        let rest = names.drop_first();
        lemma_allocation_run_fresh(existing.push(first), prefix, stamp, suffix, rest);
        assert(!existing.contains(first));
        assert forall|k: int| 0 <= k < names.len() implies !existing.contains(names[k]) by {
            if k > 0 {
                assert(names[k] == rest[k - 1]);
                assert(!existing.push(first).contains(rest[k - 1]));
                if existing.contains(names[k]) {
                    let w = choose|w: int| 0 <= w < existing.len() && existing[w] == names[k];
                    assert(existing.push(first)[w] == names[k]);
                }
            }
        }
        assert forall|a: int, b: int|
            0 <= a < names.len() && 0 <= b < names.len() && a != b implies names[a] != names[b] by {
            if a > 0 && b > 0 {
                assert(names[a] == rest[a - 1] && names[b] == rest[b - 1]);
            } else {
                let nz = if a == 0 { b } else { a };
                assert(names[nz] == rest[nz - 1]);
                assert(!existing.push(first).contains(rest[nz - 1]));
                assert(existing.push(first)[existing.len() as int] == first);
                if names[nz] == first {
                    assert(existing.push(first).contains(rest[nz - 1]));
                }
            }
        }
    }
}

} // verus!
