//! Names for collections: the name of a newly discovered resource's
//! collection, and the versioned name under which a collection is
//! re-created.

use vstd::prelude::*;
use vstd::string::*;
use crate::text::{contains_name, decimal, decimal_string, lemma_decimal_injective, strings_view};

verus! {

/// `base`, then `infix`, then `k` in decimal.
pub open spec fn suffixed(base: Seq<char>, infix: Seq<char>, k: nat) -> Seq<char> {
    base + infix + decimal(k)
}

/// The first number from `k` on whose suffixed name is not in `used`,
/// looking at no more than `budget` numbers beyond `k`.
pub open spec fn unused_from(
    base: Seq<char>,
    infix: Seq<char>,
    used: Seq<Seq<char>>,
    k: nat,
    budget: nat,
) -> nat
    decreases budget,
{
    if budget == 0 || !used.contains(suffixed(base, infix, k)) {
        k
    } else {
        unused_from(base, infix, used, k + 1, (budget - 1) as nat)
    }
}

/// The first name among `base` + `infix` + `start`, `start + 1`, ... that is
/// not in `used`.
pub open spec fn unused_name(
    base: Seq<char>,
    infix: Seq<char>,
    used: Seq<Seq<char>>,
    start: nat,
) -> Seq<char> {
    suffixed(base, infix, unused_from(base, infix, used, start, used.len()))
}

/// Different numbers give different suffixed names.
pub proof fn lemma_suffixed_injective(base: Seq<char>, infix: Seq<char>, a: nat, b: nat)
    requires
        suffixed(base, infix, a) == suffixed(base, infix, b),
    ensures
        a == b,
{
    let prefix = base + infix;
    assert((prefix + decimal(a)).skip(prefix.len() as int) =~= decimal(a));
    assert((prefix + decimal(b)).skip(prefix.len() as int) =~= decimal(b));
    lemma_decimal_injective(a, b);
}

/// What `unused_from` finds: a number within the budget, with every
/// number before it in use; and if its own name is in use, the budget is
/// spent.
proof fn lemma_unused_from(
    base: Seq<char>,
    infix: Seq<char>,
    used: Seq<Seq<char>>,
    k: nat,
    budget: nat,
)
    ensures
        k <= unused_from(base, infix, used, k, budget) <= k + budget,
        forall|j: nat|
            k <= j < unused_from(base, infix, used, k, budget) ==> used.contains(
                #[trigger] suffixed(base, infix, j),
            ),
        used.contains(suffixed(base, infix, unused_from(base, infix, used, k, budget)))
            ==> unused_from(base, infix, used, k, budget) == k + budget,
    decreases budget,
{
    if !(budget == 0 || !used.contains(suffixed(base, infix, k))) {
        lemma_unused_from(base, infix, used, k + 1, (budget - 1) as nat);
    }
}

/// The number that `unused_from` finds is not below the one it starts from.
pub proof fn lemma_unused_from_start(
    base: Seq<char>,
    infix: Seq<char>,
    used: Seq<Seq<char>>,
    k: nat,
    budget: nat,
)
    ensures
        k <= unused_from(base, infix, used, k, budget),
{
    lemma_unused_from(base, infix, used, k, budget);
}

/// The name that `unused_name` gives is not in `used`.
pub proof fn lemma_unused_name(
    base: Seq<char>,
    infix: Seq<char>,
    used: Seq<Seq<char>>,
    start: nat,
)
    ensures
        !used.contains(unused_name(base, infix, used, start)),
{
    let n = used.len();
    let r = unused_from(base, infix, used, start, n);
    lemma_unused_from(base, infix, used, start, n);
    if used.contains(suffixed(base, infix, r)) {
        // Then the budget is spent, and each of the candidates is in use.
        let candidates = Seq::new(n + 1, |i: int| suffixed(base, infix, (start + i) as nat));
        assert forall|i: int, j: int|
            0 <= i < candidates.len() && 0 <= j < candidates.len() && i != j implies candidates[i]
            != candidates[j] by {
            if candidates[i] == candidates[j] {
                lemma_suffixed_injective(base, infix, (start + i) as nat, (start + j) as nat);
            }
        }
        assert(candidates.no_duplicates());
        candidates.unique_seq_to_set();
        used.lemma_cardinality_of_set();
        assert forall|name: Seq<char>| candidates.to_set().contains(name) implies used.to_set().contains(
            name,
        ) by {
            let i = choose|i: int| 0 <= i < candidates.len() && candidates[i] == name;
            assert(used.contains(suffixed(base, infix, (start + i) as nat)));
        }
        // One more candidate than names in use, and every one of them in use.
        vstd::set_lib::lemma_len_subset(candidates.to_set(), used.to_set());
        assert(false);
    }
}

/// The first name among `base` + `infix` + `start`, `start + 1`, ... that
/// `used` does not hold. There always is one.
pub fn first_unused_name(base: &str, infix: &str, used: &Vec<String>, start: u64) -> (r: String)
    ensures
        r@ == unused_name(base@, infix@, strings_view(used@), start as nat),
        !strings_view(used@).contains(r@),
{
    let ghost names = strings_view(used@);
    let mut k: u128 = start as u128;
    let mut budget: usize = used.len();
    proof {
        lemma_unused_name(base@, infix@, names, start as nat);
    }
    loop
        invariant
            names == strings_view(used@),
            names.len() == used@.len(),
            used@.len() <= usize::MAX,
            k + budget == start + used@.len(),
            unused_from(base@, infix@, names, k as nat, budget as nat) == unused_from(
                base@,
                infix@,
                names,
                start as nat,
                names.len(),
            ),
            !names.contains(unused_name(base@, infix@, names, start as nat)),
        decreases budget,
    {
        let mut candidate = base.to_owned();
        candidate.append(infix);
        candidate.append(decimal_string(k).as_str());
        assert(candidate@ =~= suffixed(base@, infix@, k as nat));
        if budget == 0 || !contains_name(used, candidate.as_str()) {
            return candidate;
        }
        k += 1;
        budget -= 1;
    }
}

/// The name of the collection for a newly discovered resource, before any
/// collision is dealt with: the tenant, a slash, and the recommended name.
pub open spec fn collection_name(tenant: Seq<char>, recommended: Seq<char>) -> Seq<char> {
    tenant + seq!['/'] + recommended
}

/// The name of the collection for a newly discovered resource: its plain
/// name where that is free, else the first free one of that name followed
/// by `_2`, `_3`, and so on.
pub open spec fn fresh_collection_name(
    tenant: Seq<char>,
    recommended: Seq<char>,
    used: Seq<Seq<char>>,
) -> Seq<char> {
    let plain = collection_name(tenant, recommended);
    if used.contains(plain) {
        unused_name(plain, seq!['_'], used, 2)
    } else {
        plain
    }
}

/// Names a newly discovered resource's collection. The name is not in `used`.
pub fn name_new_collection(tenant: &str, recommended: &str, used: &Vec<String>) -> (r: String)
    ensures
        r@ == fresh_collection_name(tenant@, recommended@, strings_view(used@)),
        !strings_view(used@).contains(r@),
{
    proof {
        reveal_strlit("/");
        reveal_strlit("_");
    }
    let mut plain = tenant.to_owned();
    plain.append("/");
    plain.append(recommended);
    assert(plain@ =~= collection_name(tenant@, recommended@));
    assert("/"@ =~= seq!['/']);
    assert("_"@ =~= seq!['_']);
    if contains_name(used, plain.as_str()) {
        first_unused_name(plain.as_str(), "_", used, 2)
    } else {
        plain
    }
}

/// The value of a decimal digit; `None` for any other character.
pub open spec fn digit_of(c: char) -> Option<nat> {
    if c == '0' {
        Some(0)
    } else if c == '1' {
        Some(1)
    } else if c == '2' {
        Some(2)
    } else if c == '3' {
        Some(3)
    } else if c == '4' {
        Some(4)
    } else if c == '5' {
        Some(5)
    } else if c == '6' {
        Some(6)
    } else if c == '7' {
        Some(7)
    } else if c == '8' {
        Some(8)
    } else if c == '9' {
        Some(9)
    } else {
        None
    }
}

/// How many decimal digits `s` ends with.
pub open spec fn trailing_digits(s: Seq<char>) -> nat
    decreases s.len(),
{
    if s.len() > 0 && digit_of(s.last()) is Some {
        1 + trailing_digits(s.drop_last())
    } else {
        0
    }
}

/// The number that a sequence of decimal digits denotes.
pub open spec fn digits_value(s: Seq<char>) -> nat
    decreases s.len(),
{
    if s.len() == 0 {
        0
    } else {
        digits_value(s.drop_last()) * 10 + match digit_of(s.last()) {
            Some(d) => d,
            None => 0,
        }
    }
}

/// The longest version that a name may end with, in digits.
pub const VERSION_DIGITS: usize = 9;

/// A name taken apart into what it was first called and its version. A
/// name that ends with `_v` and one to nine decimal digits has those
/// digits for its version; any other name is itself the first name, and
/// its version is 1.
pub open spec fn version_split(name: Seq<char>) -> (Seq<char>, nat) {
    let d = trailing_digits(name);
    let n = name.len();
    if 1 <= d <= VERSION_DIGITS && d + 2 <= n && name[n - d - 2] == '_' && name[n - d - 1] == 'v' {
        (name.take(n - d - 2), digits_value(name.skip(n - d)))
    } else {
        (name, 1)
    }
}

/// The name of version `k` of the collection that was first called `base`.
pub open spec fn versioned(base: Seq<char>, k: nat) -> Seq<char> {
    suffixed(base, seq!['_', 'v'], k)
}

/// The name under which the collection `name` is re-created: its first
/// name, `_v`, and the first version above its own, and not below 2, that
/// gives a name not in `used`.
pub open spec fn next_version_name(name: Seq<char>, used: Seq<Seq<char>>) -> Seq<char> {
    let (base, version) = version_split(name);
    unused_name(
        base,
        seq!['_', 'v'],
        used,
        if version < 1 {
            2
        } else {
            version + 1
        },
    )
}

/// A next version name is versioned and free: it is the first name of
/// the collection, `_v`, and a version of 2 or more that is above the
/// collection's own; and it is not in `used`.
pub proof fn lemma_next_version_name(name: Seq<char>, used: Seq<Seq<char>>)
    ensures
        !used.contains(next_version_name(name, used)),
        exists|k: nat|
            k >= 2 && k > version_split(name).1 && next_version_name(name, used)
                == #[trigger] versioned(version_split(name).0, k),
{
    let (base, version) = version_split(name);
    let start: nat = if version < 1 {
        2
    } else {
        version + 1
    };
    lemma_unused_name(base, seq!['_', 'v'], used, start);
    lemma_unused_from_start(base, seq!['_', 'v'], used, start, used.len());
    let k = unused_from(base, seq!['_', 'v'], used, start, used.len());
    assert(next_version_name(name, used) == versioned(base, k));
    if version >= 1 {
        assert(start >= 2);
    }
}

/// A name whose last `d` characters are digits ends with at least `d`
/// digits, and with just `d` where the character before them is none.
proof fn lemma_trailing_digits(s: Seq<char>, d: nat)
    requires
        d <= s.len(),
        forall|j: int| s.len() - d <= j < s.len() ==> digit_of(s[j]) is Some,
    ensures
        trailing_digits(s) >= d,
        d == s.len() || digit_of(s[s.len() - d - 1]) is None ==> trailing_digits(s) == d,
    decreases d,
{
    if d > 0 {
        let t = s.drop_last();
        assert(forall|j: int| 0 <= j < t.len() ==> t[j] == s[j]);
        lemma_trailing_digits(t, (d - 1) as nat);
    }
}

/// Ten to the power of `c`.
spec fn pow10(c: nat) -> nat
    decreases c,
{
    if c == 0 {
        1
    } else {
        10 * pow10((c - 1) as nat)
    }
}

/// A version of at most [`VERSION_DIGITS`] digits is below a thousand million.
proof fn lemma_pow10_bound(c: nat)
    requires
        c <= VERSION_DIGITS,
    ensures
        pow10(c) <= 1_000_000_000,
{
    reveal_with_fuel(pow10, 11);
}

/// The value of a decimal digit.
fn digit_value(c: char) -> (r: Option<u64>)
    ensures
        match r {
            Some(d) => digit_of(c) == Some(d as nat) && d < 10,
            None => digit_of(c) is None,
        },
{
    match c {
        '0' => Some(0),
        '1' => Some(1),
        '2' => Some(2),
        '3' => Some(3),
        '4' => Some(4),
        '5' => Some(5),
        '6' => Some(6),
        '7' => Some(7),
        '8' => Some(8),
        '9' => Some(9),
        _ => None,
    }
}

/// Takes a name apart into its first name and its version. The name is
/// read character by character from its end, so the cost grows with the
/// length of the name times the number of digits it ends with.
pub fn split_version(name: &str) -> (r: (String, u64))
    ensures
        (r.0@, r.1 as nat) == version_split(name@),
        r.1 < 1_000_000_000,
{
    let n = name.unicode_len();
    let mut d: usize = 0;
    let mut more = true;
    while more && d < n && d <= VERSION_DIGITS
        invariant
            n == name@.len(),
            d <= n,
            d <= VERSION_DIGITS + 1,
            forall|j: int| n - d <= j < n ==> digit_of(name@[j]) is Some,
            !more ==> d < n && digit_of(name@[n - d - 1]) is None,
        decreases (if more { 1int } else { 0int }) + VERSION_DIGITS + 1 - d,
    {
        match digit_value(name.get_char(n - 1 - d)) {
            Some(_) => {
                d += 1;
            },
            None => {
                more = false;
            },
        }
    }
    proof {
        lemma_trailing_digits(name@, d as nat);
    }
    if d == 0 || d > VERSION_DIGITS || n < d + 2 {
        return (name.to_owned(), 1);
    }
    if name.get_char(n - d - 2) != '_' || name.get_char(n - d - 1) != 'v' {
        return (name.to_owned(), 1);
    }
    let mut value: u64 = 0;
    let mut i: usize = n - d;
    assert(name@.subrange(n - d, n - d) =~= Seq::<char>::empty());
    while i < n
        invariant
            n == name@.len(),
            1 <= d <= VERSION_DIGITS,
            d + 2 <= n,
            n - d <= i <= n,
            forall|j: int| n - d <= j < n ==> digit_of(name@[j]) is Some,
            value == digits_value(name@.subrange(n - d, i as int)),
            value < pow10((i - (n - d)) as nat),
        decreases n - i,
    {
        let digit = digit_value(name.get_char(i));
        proof {
            lemma_pow10_bound((i - (n - d)) as nat);
            assert(name@.subrange(n - d, i + 1).drop_last() =~= name@.subrange(n - d, i as int));
            assert(name@.subrange(n - d, i + 1).last() == name@[i as int]);
            assert(pow10((i + 1 - (n - d)) as nat) == 10 * pow10((i - (n - d)) as nat));
        }
        value = value * 10 + match digit {
            Some(v) => v,
            None => 0,
        };
        i += 1;
    }
    assert(name@.subrange(n - d, n as int) =~= name@.skip(n - d));
    proof {
        lemma_pow10_bound(d as nat);
    }
    let base = name.substring_char(0, n - d - 2).to_owned();
    assert(base@ =~= name@.take(n - d - 2));
    (base, value)
}

/// Names the collection that takes the place of `name`. The new name is
/// not in `used`.
pub fn name_next_version(name: &str, used: &Vec<String>) -> (r: String)
    ensures
        r@ == next_version_name(name@, strings_view(used@)),
        !strings_view(used@).contains(r@),
{
    proof {
        reveal_strlit("_v");
    }
    assert("_v"@ =~= seq!['_', 'v']);
    let (base, version) = split_version(name);
    let start: u64 = if version < 1 {
        2
    } else {
        version + 1
    };
    first_unused_name(base.as_str(), "_v", used, start)
}

} // verus!
