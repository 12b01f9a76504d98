use vstd::prelude::*;

use crate::sys::{is_lower_hex, random_uuid_text};

verus! {

/// Whether a string holds exactly the characters of a string slice.
pub fn string_eq_str(a: &String, b: &str) -> (r: bool)
    ensures
        r == (a@ == b@),
{
    let owned = String::from_str(b);
    *a == owned
}


/// The shape of the first twelve characters of a hyphenated lowercase UUID:
/// eight hexadecimal digits, a hyphen, three hexadecimal digits.
pub open spec fn is_short_uuid(s: Seq<char>) -> bool {
    &&& s.len() == 12
    &&& forall|i: int| 0 <= i < 12 ==> if i == 8 {
        s[i] == '-'
    } else {
        is_lower_hex(#[trigger] s[i])
    }
}

/// Whether `s` is `prefix` followed by the first twelve characters of a UUID.
pub open spec fn is_prefixed_short_uuid(s: Seq<char>, prefix: Seq<char>) -> bool {
    &&& s.len() == prefix.len() + 12
    &&& s.subrange(0, prefix.len() as int) == prefix
    &&& is_short_uuid(s.subrange(prefix.len() as int, s.len() as int))
}

/// `prefix` followed by the first twelve characters of `uuid`.
pub fn prefixed_short_id(prefix: &str, uuid: &str) -> (r: String)
    requires
        uuid@.len() >= 12,
    ensures
        r@ == prefix@ + uuid@.take(12),
{
    let head = uuid.substring_char(0, 12);
    let mut out = String::from_str(prefix);
    out.append(head);
    proof {
        assert(head@ =~= uuid@.take(12));
    }
    out
}

/// A random identifier: `prefix` followed by the first twelve characters of a
/// fresh random UUID.
pub fn short_random_id(prefix: &str) -> (r: String)
    ensures
        is_prefixed_short_uuid(r@, prefix@),
{
    let uuid = random_uuid_text();
    let out = prefixed_short_id(prefix, uuid.as_str());
    proof {
        let u = uuid@.take(12);
        assert(out@.subrange(0, prefix@.len() as int) =~= prefix@);
        assert(out@.subrange(prefix@.len() as int, out@.len() as int) =~= u);
        assert forall|i: int| 0 <= i < 12 implies if i == 8 {
            u[i] == '-'
        } else {
            is_lower_hex(#[trigger] u[i])
        } by {
            assert(u[i] == uuid@[i]);
        }
    }
    out
}


/// Whether `a` comes strictly before `b` in lexicographic order of Unicode
/// code points (the order of `String`'s `Ord`, which compares UTF-8 bytes).
pub open spec fn str_lt(a: Seq<char>, b: Seq<char>) -> bool
    decreases a.len(),
{
    if a.len() == 0 {
        b.len() > 0
    } else if b.len() == 0 {
        false
    } else if (a[0] as int) < (b[0] as int) {
        true
    } else if a[0] == b[0] {
        str_lt(a.drop_first(), b.drop_first())
    } else {
        false
    }
}

/// No string comes before itself.
pub proof fn lemma_str_lt_irreflexive(a: Seq<char>)
    ensures
        !str_lt(a, a),
    decreases a.len(),
{
    if a.len() > 0 {
        lemma_str_lt_irreflexive(a.drop_first());
    }
}

/// The order is transitive.
pub proof fn lemma_str_lt_transitive(a: Seq<char>, b: Seq<char>, c: Seq<char>)
    requires
        str_lt(a, b),
        str_lt(b, c),
    ensures
        str_lt(a, c),
    decreases a.len(),
{
    if a.len() > 0 && b.len() > 0 && c.len() > 0 && a[0] == b[0] && b[0] == c[0] {
        lemma_str_lt_transitive(a.drop_first(), b.drop_first(), c.drop_first());
    }
}

/// Of two different strings, one comes before the other, and not both.
pub proof fn lemma_str_lt_total(a: Seq<char>, b: Seq<char>)
    ensures
        a != b ==> (str_lt(a, b) || str_lt(b, a)),
        !(str_lt(a, b) && str_lt(b, a)),
    decreases a.len(),
{
    if a.len() > 0 && b.len() > 0 {
        lemma_str_lt_total(a.drop_first(), b.drop_first());
        if a[0] == b[0] && a != b {
            assert(a.drop_first() != b.drop_first()) by {
                if a.drop_first() == b.drop_first() {
                    assert(a =~= seq![a[0]] + a.drop_first());
                    assert(b =~= seq![b[0]] + b.drop_first());
                }
            }
        }
        if a[0] != b[0] {
            assert((a[0] as int) != (b[0] as int));
        }
    } else if a.len() == 0 && b.len() == 0 {
        assert(a =~= b);
    }
}

/// Whether `a` and `b` first differ at place `k`, with `a`'s character there
/// of the smaller code point, or `a` ends at `k` while `b` goes on.
pub open spec fn before_at(a: Seq<char>, b: Seq<char>, k: int) -> bool {
    &&& 0 <= k <= a.len()
    &&& k <= b.len()
    &&& forall|j: int| 0 <= j < k ==> a[j] == b[j]
    &&& ((k == a.len() && k < b.len()) || (k < a.len() && k < b.len() && (a[k] as int) < (b[k] as int)))
}

/// The order of keys is the plain lexicographic order of Unicode code points
/// (the order of their UTF-8 bytes): `a` comes before `b` exactly when, at
/// the first place where they differ, `a`'s character has the smaller code
/// point, or `a` is a proper prefix of `b`.
pub proof fn law_str_lt_is_code_point_order(a: Seq<char>, b: Seq<char>)
    ensures
        str_lt(a, b) <==> exists|k: int| #[trigger] before_at(a, b, k),
    decreases a.len(),
{
    if a.len() == 0 {
        if b.len() > 0 {
            assert(before_at(a, b, 0));
        }
    } else if b.len() == 0 {
        if exists|k: int| #[trigger] before_at(a, b, k) {
            let k = choose|k: int| #[trigger] before_at(a, b, k);
            assert(k == 0);
        }
    } else {
        let a1 = a.drop_first();
        let b1 = b.drop_first();
        law_str_lt_is_code_point_order(a1, b1);
        if (a[0] as int) < (b[0] as int) {
            assert(before_at(a, b, 0));
        } else if a[0] == b[0] {
            if exists|k: int| #[trigger] before_at(a1, b1, k) {
                let k = choose|k: int| #[trigger] before_at(a1, b1, k);
                assert forall|j: int| 0 <= j < k + 1 implies a[j] == b[j] by {
                    if j > 0 {
                        assert(a1[j - 1] == a[j] && b1[j - 1] == b[j]);
                    }
                }
                assert(before_at(a, b, k + 1));
            }
            if exists|k: int| #[trigger] before_at(a, b, k) {
                let k = choose|k: int| #[trigger] before_at(a, b, k);
                assert(k > 0);
                assert forall|j: int| 0 <= j < k - 1 implies a1[j] == b1[j] by {
                    assert(a[j + 1] == b[j + 1]);
                }
                assert(before_at(a1, b1, k - 1));
            }
        } else {
            if exists|k: int| #[trigger] before_at(a, b, k) {
                let k = choose|k: int| #[trigger] before_at(a, b, k);
                if k > 0 {
                    assert(a[0] == b[0]);
                }
                assert((a[0] as int) != (b[0] as int));
            }
        }
    }
}

/// Whether `a` comes strictly before `b` (see `str_lt`).
pub fn str_less(a: &str, b: &str) -> (r: bool)
    ensures
        r == str_lt(a@, b@),
{
    let n = a.unicode_len();
    let m = b.unicode_len();
    let mut i: usize = 0;
    proof {
        assert(a@.skip(0) =~= a@);
        assert(b@.skip(0) =~= b@);
    }
    while i < n && i < m
        invariant
            n == a@.len(),
            m == b@.len(),
            i <= n,
            i <= m,
            str_lt(a@, b@) == str_lt(a@.skip(i as int), b@.skip(i as int)),
        decreases n - i,
    {
        let x = a.get_char(i);
        let y = b.get_char(i);
        proof {
            assert(a@.skip(i as int)[0] == x);
            assert(b@.skip(i as int)[0] == y);
        }
        if (x as u32) < (y as u32) {
            return true;
        }
        if x != y {
            return false;
        }
        proof {
            assert(a@.skip(i as int).drop_first() =~= a@.skip(i + 1));
            assert(b@.skip(i as int).drop_first() =~= b@.skip(i + 1));
        }
        i = i + 1;
    }
    i < m
}

} // verus!
