//! String collections with set semantics.
//!
//! Tag, context, option, and decision-maker collections are held as vectors of
//! strings that contain no duplicates; their abstract value is the set of the
//! character sequences they hold.

use vstd::prelude::*;
use vstd::assert_sets_equal;

verus! {

/// The set of character sequences a sequence of strings holds.
pub open spec fn str_set(ss: Seq<String>) -> Set<Seq<char>> {
    Set::new(|x: Seq<char>| seq_has_str(ss, x))
}

/// Whether some string of `ss` reads `x`.
pub open spec fn seq_has_str(ss: Seq<String>, x: Seq<char>) -> bool {
    exists|i: int| 0 <= i < ss.len() && #[trigger] ss[i]@ == x
}

/// No two strings of `ss` read the same.
pub open spec fn distinct_strs(ss: Seq<String>) -> bool {
    forall|i: int, j: int| 0 <= i < j < ss.len() ==> #[trigger] ss[i]@ != #[trigger] ss[j]@
}

/// Extending a prefix of `ss` by one string adds exactly that string to the
/// abstract set of the prefix.
pub proof fn lemma_str_set_subrange_extend(ss: Seq<String>, i: int)
    requires
        0 <= i < ss.len(),
    ensures
        str_set(ss.subrange(0, i + 1)) == str_set(ss.subrange(0, i)).insert(ss[i]@),
{
    assert_sets_equal!(str_set(ss.subrange(0, i + 1)) == str_set(ss.subrange(0, i)).insert(ss[i]@), y => {
        if seq_has_str(ss.subrange(0, i + 1), y) {
            let k = choose|k: int| 0 <= k < i + 1 && #[trigger] ss.subrange(0, i + 1)[k]@ == y;
            if k < i {
                assert(ss.subrange(0, i)[k]@ == y);
            }
        }
        if seq_has_str(ss.subrange(0, i), y) {
            let k = choose|k: int| 0 <= k < i && #[trigger] ss.subrange(0, i)[k]@ == y;
            assert(ss.subrange(0, i + 1)[k]@ == y);
        }
        if y == ss[i]@ {
            assert(ss.subrange(0, i + 1)[i]@ == y);
        }
    });
}

/// A member of a duplicate-free collection has exactly one representative:
/// some position reads it, and no two positions do.
pub proof fn lemma_member_appears_once(ss: Seq<String>, x: Seq<char>)
    requires
        distinct_strs(ss),
        str_set(ss).contains(x),
    ensures
        exists|i: int| 0 <= i < ss.len() && #[trigger] ss[i]@ == x,
        forall|i: int, j: int|
            0 <= i < ss.len() && 0 <= j < ss.len() && #[trigger] ss[i]@ == x && #[trigger] ss[j]@
                == x ==> i == j,
{
    assert forall|i: int, j: int|
        0 <= i < ss.len() && 0 <= j < ss.len() && #[trigger] ss[i]@ == x && #[trigger] ss[j]@
            == x implies i == j by {
        if i < j {
            assert(ss[i]@ != ss[j]@);
        }
        if j < i {
            assert(ss[j]@ != ss[i]@);
        }
    }
}

/// Whether `ss` holds a string reading like `x`.
pub fn contains_string(ss: &Vec<String>, x: &String) -> (r: bool)
    ensures
        r == str_set(ss@).contains(x@),
{
    let mut i: usize = 0;
    while i < ss.len()
        invariant
            i <= ss@.len(),
            forall|j: int| 0 <= j < i ==> ss@[j]@ != x@,
        decreases ss@.len() - i,
    {
        if ss[i].eq(x) {
            assert(seq_has_str(ss@, x@));
            return true;
        }
        i = i + 1;
    }
    assert(!seq_has_str(ss@, x@));
    false
}

/// Adds `x` to the collection unless a string reading the same is already
/// there: the abstract set grows by `x`, and no duplicate ever enters.
pub fn insert_string(ss: &mut Vec<String>, x: String)
    ensures
        str_set(final(ss)@) == str_set(old(ss)@).insert(x@),
        seq_has_str(old(ss)@, x@) ==> final(ss)@ == old(ss)@,
        !seq_has_str(old(ss)@, x@) ==> final(ss)@ == old(ss)@.push(x),
        distinct_strs(old(ss)@) ==> distinct_strs(final(ss)@),
{
    let present = contains_string(ss, &x);
    if !present {
        let ghost ss0 = ss@;
        ss.push(x);
        proof {
            assert forall|i: int, j: int|
                distinct_strs(ss0) && 0 <= i < j < ss@.len() implies ss@[i]@ != ss@[j]@ by {
                if j < ss0.len() {
                    assert(ss@[i]@ != ss@[j]@);
                } else {
                    assert(!seq_has_str(ss0, ss@[j]@));
                }
            }
            assert_sets_equal!(str_set(ss@) == str_set(ss0).insert(x@), y => {
                if y == x@ {
                    assert(ss@[ss0.len() as int]@ == x@);
                    assert(seq_has_str(ss@, y));
                } else {
                    if seq_has_str(ss@, y) {
                        let i = choose|i: int| 0 <= i < ss@.len() && #[trigger] ss@[i]@ == y;
                        assert(0 <= i < ss0.len() && ss0[i]@ == y);
                    }
                    if seq_has_str(ss0, y) {
                        let i = choose|i: int| 0 <= i < ss0.len() && #[trigger] ss0[i]@ == y;
                        assert(ss@[i]@ == y);
                    }
                }
            });
        }
    } else {
        proof {
            assert_sets_equal!(str_set(ss@) == str_set(ss@).insert(x@), y => {
                if y == x@ {
                    assert(seq_has_str(ss@, x@));
                }
            });
        }
    }
}

/// An independent copy of a vector of strings.
pub fn clone_strings(ss: &Vec<String>) -> (r: Vec<String>)
    ensures
        r@ == ss@,
{
    let mut r: Vec<String> = Vec::new();
    let mut i: usize = 0;
    while i < ss.len()
        invariant
            i <= ss@.len(),
            r@.len() == i,
            forall|j: int| 0 <= j < i ==> r@[j] == ss@[j],
        decreases ss@.len() - i,
    {
        r.push(ss[i].clone());
        i = i + 1;
    }
    proof {
        assert(r@ =~= ss@);
    }
    r
}

/// A copy of `ss` with duplicates dropped: same abstract set, no two strings
/// reading the same.
pub fn dedup_strings(ss: Vec<String>) -> (r: Vec<String>)
    ensures
        str_set(r@) == str_set(ss@),
        distinct_strs(r@),
{
    let mut r: Vec<String> = Vec::new();
    let mut i: usize = 0;
    while i < ss.len()
        invariant
            i <= ss@.len(),
            str_set(r@) == str_set(ss@.subrange(0, i as int)),
            distinct_strs(r@),
        decreases ss@.len() - i,
    {
        let x = ss[i].clone();
        insert_string(&mut r, x);
        proof {
            lemma_str_set_subrange_extend(ss@, i as int);
        }
        i = i + 1;
    }
    proof {
        assert(ss@.subrange(0, ss@.len() as int) =~= ss@);
    }
    r
}

} // verus!
