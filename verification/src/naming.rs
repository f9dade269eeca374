//! Collision-free destination naming on the receiving side.
//!
//! A received file must never overwrite an existing one.  When the
//! destination name is taken, the receiver prefixes the base name with an
//! incrementing counter in parentheses — `(1) name`, `(2) name`, … —
//! until a free name is found.  Names are byte strings here; the caller
//! supplies the names already taken in the destination directory.

use vstd::prelude::*;
use vstd::seq_lib::group_seq_properties;
use vstd::set_lib::lemma_len_subset;
use vstd::slice::slice_to_vec;

verus! {

/// The decimal digits of `n`, most significant first, no leading zeros.
pub open spec fn digits_spec(n: nat) -> Seq<u8>
    decreases n,
{
    if n < 10 {
        seq![(48 + n) as u8]
    } else {
        digits_spec(n / 10).push((48 + n % 10) as u8)
    }
}

/// The number a digit string reads back as.
pub open spec fn digits_value(s: Seq<u8>) -> nat
    decreases s.len(),
{
    if s.len() == 0 {
        0
    } else {
        digits_value(s.drop_last()) * 10 + (if s.last() >= 48 {
            (s.last() - 48) as nat
        } else {
            0
        })
    }
}

/// The `(n) ` counter prefix in front of the base name.
pub open spec fn numbered_spec(n: nat, name: Seq<u8>) -> Seq<u8> {
    seq![40u8] + digits_spec(n) + seq![41u8, 32u8] + name
}

/// Reading a decimal rendering back yields the number: rendering is
/// injective.
proof fn lemma_digits_value(n: nat)
    ensures
        digits_value(digits_spec(n)) == n,
        digits_spec(n).len() >= 1,
    decreases n,
{
    if n < 10 {
        let s = digits_spec(n);
        assert(s.drop_last() =~= Seq::<u8>::empty());
        assert(digits_value(Seq::<u8>::empty()) == 0);
        assert(s.last() == (48 + n) as u8);
        assert(digits_value(s) == digits_value(s.drop_last()) * 10 + (s.last() - 48) as nat);
    } else {
        lemma_digits_value(n / 10);
        assert(digits_spec(n).drop_last() =~= digits_spec(n / 10));
        assert(digits_value(digits_spec(n)) == (n / 10) * 10 + n % 10);
        assert((n / 10) * 10 + n % 10 == n) by (nonlinear_arith);
    }
}

/// Distinct counters give distinct names for the same base name.
proof fn lemma_numbered_injective(i: nat, j: nat, name: Seq<u8>)
    requires
        numbered_spec(i, name) == numbered_spec(j, name),
    ensures
        i == j,
{
    lemma_digits_value(i);
    lemma_digits_value(j);
    let di = digits_spec(i);
    let dj = digits_spec(j);
    assert(numbered_spec(i, name).len() == 3 + di.len() + name.len());
    assert(numbered_spec(j, name).len() == 3 + dj.len() + name.len());
    assert(di.len() == dj.len());
    assert forall|k: int| 0 <= k < di.len() implies di[k] == dj[k] by {
        assert(numbered_spec(i, name)[1 + k] == di[k]);
        assert(numbered_spec(j, name)[1 + k] == dj[k]);
    }
    assert(di =~= dj);
}

/// The numbered names with counters below `i`.
spec fn candidates_below(name: Seq<u8>, i: nat) -> Set<Seq<u8>> {
    Set::new(|s: Seq<u8>| exists|j: nat| 1 <= j < i && s == numbered_spec(j, name))
}

/// There are exactly `i - 1` candidate names below counter `i`.
proof fn lemma_candidates_card(name: Seq<u8>, i: nat)
    requires
        i >= 1,
    ensures
        candidates_below(name, i).finite(),
        candidates_below(name, i).len() == i - 1,
    decreases i,
{
    if i == 1 {
        assert(candidates_below(name, 1) =~= Set::<Seq<u8>>::empty());
    } else {
        lemma_candidates_card(name, (i - 1) as nat);
        let prev = candidates_below(name, (i - 1) as nat);
        let cur = candidates_below(name, i);
        assert(cur =~= prev.insert(numbered_spec((i - 1) as nat, name)));
        if prev.contains(numbered_spec((i - 1) as nat, name)) {
            let j = choose|j: nat|
                1 <= j < i - 1 && numbered_spec((i - 1) as nat, name) == #[trigger] numbered_spec(
                    j,
                    name,
                );
            lemma_numbered_injective((i - 1) as nat, j, name);
            assert(false);
        }
    }
}

/// Render `n` in decimal.
pub fn u64_to_decimal(n: u64) -> (r: Vec<u8>)
    ensures
        r@ == digits_spec(n as nat),
    decreases n,
{
    if n < 10 {
        let mut v: Vec<u8> = Vec::new();
        v.push(48 + (n as u8));
        proof {
            assert(v@ =~= digits_spec(n as nat));
        }
        v
    } else {
        let mut v = u64_to_decimal(n / 10);
        v.push(48 + ((n % 10) as u8));
        proof {
            assert(v@ =~= digits_spec(n as nat));
        }
        v
    }
}

/// Build the `(n) name` destination name.
pub fn numbered_name(n: u64, name: &Vec<u8>) -> (r: Vec<u8>)
    ensures
        r@ == numbered_spec(n as nat, name@),
{
    let mut r: Vec<u8> = Vec::new();
    r.push(40);
    let mut digits = u64_to_decimal(n);
    r.append(&mut digits);
    r.push(41);
    r.push(32);
    let mut base = slice_to_vec(name.as_slice());
    r.append(&mut base);
    proof {
        assert(r@ =~= numbered_spec(n as nat, name@));
    }
    r
}

/// Whether `taken` holds a name with exactly these bytes.
pub fn name_taken(taken: &Vec<Vec<u8>>, candidate: &Vec<u8>) -> (r: bool)
    ensures
        r == taken.deep_view().contains(candidate@),
{
    let ghost d = taken.deep_view();
    let mut i: usize = 0;
    while i < taken.len()
        invariant
            i <= taken@.len(),
            d == taken.deep_view(),
            forall|j: int| 0 <= j < i ==> d[j] != candidate@,
        decreases taken@.len() - i,
    {
        proof {
            assert(d[i as int] =~= taken@[i as int]@);
        }
        if crate::wire::bytes_equal(&taken[i], candidate) {
            proof {
                assert(d.contains(candidate@));
            }
            return true;
        }
        i = i + 1;
    }
    proof {
        if d.contains(candidate@) {
            let j = choose|j: int| 0 <= j < d.len() && d[j] == candidate@;
            assert(false);
        }
    }
    false
}

/// Choose the destination name for a received file: the name itself when
/// it is free, else `(1) name`, `(2) name`, … with the first counter
/// whose name is free.  The result never collides with a taken name, so
/// no existing file is overwritten.
pub fn resolve_collision(name: &Vec<u8>, taken: &Vec<Vec<u8>>) -> (r: Vec<u8>)
    requires
        taken@.len() < usize::MAX - 1,
    ensures
        !taken.deep_view().contains(r@),
        !taken.deep_view().contains(name@) ==> r@ == name@,
        taken.deep_view().contains(name@) ==> exists|n: nat|
            1 <= n && r@ == numbered_spec(n, name@) && (forall|j: nat|
                1 <= j < n ==> taken.deep_view().contains(#[trigger] numbered_spec(j, name@))),
{
    broadcast use group_seq_properties;

    let ghost d = taken.deep_view();
    if !name_taken(taken, name) {
        return slice_to_vec(name.as_slice());
    }
    let mut i: usize = 1;
    loop
        invariant
            1 <= i,
            i <= taken@.len() + 1,
            d == taken.deep_view(),
            d.len() == taken@.len(),
            taken@.len() < usize::MAX - 1,
            d.contains(name@),
            forall|j: nat| 1 <= j < i ==> d.contains(#[trigger] numbered_spec(j, name@)),
        decreases taken@.len() + 1 - i,
    {
        let candidate = numbered_name(i as u64, name);
        if !name_taken(taken, &candidate) {
            proof {
                assert(1 <= i as nat && candidate@ == numbered_spec(i as nat, name@) && (forall|
                    j: nat,
                |
                    1 <= j < i as nat ==> d.contains(#[trigger] numbered_spec(j, name@))));
            }
            return candidate;
        }
        proof {
            // Counters 1..=i name distinct taken entries, so i stays
            // within the number of taken names.
            lemma_candidates_card(name@, (i + 1) as nat);
            assert forall|s: Seq<u8>| candidates_below(name@, (i + 1) as nat).contains(s) implies
                d.to_set().contains(s) by {
                let j = choose|j: nat| 1 <= j < i + 1 && s == numbered_spec(j, name@);
                assert(d.contains(numbered_spec(j, name@)));
            }
            d.lemma_cardinality_of_set();
            lemma_len_subset(candidates_below(name@, (i + 1) as nat), d.to_set());
            assert(i <= d.len());
        }
        i = i + 1;
    }
}

} // verus!
