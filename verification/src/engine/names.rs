use vstd::prelude::*;
use vstd::string::*;
use vstd::utf8::*;

verus! {

/// Byte-wise lexicographic order: `a` comes strictly before `b` when, at the
/// first position where they differ, `a` has the smaller byte, or `a` is a
/// proper prefix of `b`.
pub open spec fn bytes_before(a: Seq<u8>, b: Seq<u8>) -> bool {
    exists|k: int| #[trigger] differ_at(a, b, k) && (k == a.len() || a[k] < b[k])
}

/// `a` and `b` agree on their first `k` bytes, `b` is longer than `k`, and
/// `a` either ends at `k` or holds another byte there.
pub open spec fn differ_at(a: Seq<u8>, b: Seq<u8>, k: int) -> bool {
    &&& 0 <= k <= a.len()
    &&& k < b.len()
    &&& forall|j: int| 0 <= j < k ==> a[j] == b[j]
    &&& (k < a.len() ==> a[k] != b[k])
}

/// The order of field names: the byte-wise order of their UTF-8 encodings.
#[verifier::opaque]
pub open spec fn name_before(a: Seq<char>, b: Seq<char>) -> bool {
    bytes_before(encode_utf8(a), encode_utf8(b))
}

/// How one name stands to another in the order of field names.
#[derive(Clone, Copy, Debug, PartialEq, Eq, Structural)]
pub enum NameOrder {
    Before,
    Same,
    After,
}

/// No byte string comes before itself, and none comes both before and after
/// another.
pub proof fn lemma_bytes_before_asymmetric(a: Seq<u8>, b: Seq<u8>)
    requires
        bytes_before(a, b),
    ensures
        !bytes_before(b, a),
        a != b,
{
    let k = choose|k: int| #[trigger] differ_at(a, b, k) && (k == a.len() || a[k] < b[k]);
    if bytes_before(b, a) {
        let m = choose|m: int| #[trigger] differ_at(b, a, m) && (m == b.len() || b[m] < a[m]);
        if k < m {
            assert(b[k] == a[k]);
        } else if m < k {
            assert(a[m] == b[m]);
        }
    }
}

/// The order of byte strings is transitive.
pub proof fn lemma_bytes_before_transitive(a: Seq<u8>, b: Seq<u8>, c: Seq<u8>)
    requires
        bytes_before(a, b),
        bytes_before(b, c),
    ensures
        bytes_before(a, c),
{
    let k = choose|k: int| #[trigger] differ_at(a, b, k) && (k == a.len() || a[k] < b[k]);
    let m = choose|m: int| #[trigger] differ_at(b, c, m) && (m == b.len() || b[m] < c[m]);
    let n = if k <= m { k } else { m };
    assert forall|j: int| 0 <= j < n implies a[j] == c[j] by {
        assert(a[j] == b[j]);
        assert(b[j] == c[j]);
    }
    if k < m {
        assert(b[k] == c[k]);
    } else if m < k {
        assert(a[m] == b[m]);
    }
    assert(differ_at(a, c, n));
}

/// The order of field names is transitive.
pub proof fn lemma_name_before_transitive(a: Seq<char>, b: Seq<char>, c: Seq<char>)
    requires
        name_before(a, b),
        name_before(b, c),
    ensures
        name_before(a, c),
{
    reveal(name_before);
    lemma_bytes_before_transitive(encode_utf8(a), encode_utf8(b), encode_utf8(c));
}

/// Two names with the same encoding are the same name.
pub proof fn lemma_encoding_injective(a: Seq<char>, b: Seq<char>)
    requires
        encode_utf8(a) == encode_utf8(b),
    ensures
        a == b,
{
    encode_utf8_decode_utf8(a);
    encode_utf8_decode_utf8(b);
}

/// Of two names exactly one holds: the first comes before the second, they are
/// the same, or the first comes after the second.
pub proof fn lemma_name_order_total(a: Seq<char>, b: Seq<char>)
    ensures
        name_before(a, b) || a == b || name_before(b, a),
        name_before(a, b) ==> a != b && !name_before(b, a),
{
    reveal(name_before);
    let x = encode_utf8(a);
    let y = encode_utf8(b);
    if name_before(a, b) {
        lemma_bytes_before_asymmetric(x, y);
    }
    if !bytes_before(x, y) && !bytes_before(y, x) {
        lemma_bytes_equal_when_unordered(x, y, 0);
        lemma_encoding_injective(a, b);
    }
}

proof fn lemma_bytes_equal_when_unordered(x: Seq<u8>, y: Seq<u8>, k: int)
    requires
        !bytes_before(x, y),
        !bytes_before(y, x),
        0 <= k <= x.len(),
        k <= y.len(),
        forall|j: int| 0 <= j < k ==> x[j] == y[j],
    ensures
        x == y,
    decreases x.len() - k,
{
    if k == x.len() {
        if k < y.len() {
            assert(differ_at(x, y, k));
        }
        assert(x =~= y);
    } else if k == y.len() {
        assert(differ_at(y, x, k));
    } else if x[k] != y[k] {
        assert(differ_at(x, y, k));
        assert(differ_at(y, x, k));
    } else {
        lemma_bytes_equal_when_unordered(x, y, k + 1);
    }
}

/// Compares two names in the order of field names.
pub fn compare_names(a: &str, b: &str) -> (o: NameOrder)
    ensures
        o == NameOrder::Before <==> name_before(a@, b@),
        o == NameOrder::Same <==> a@ == b@,
        o == NameOrder::After <==> name_before(b@, a@),
{
    let x = a.as_bytes();
    let y = b.as_bytes();
    proof {
        reveal(name_before);
        lemma_name_order_total(a@, b@);
        lemma_name_order_total(b@, a@);
    }
    let mut i: usize = 0;
    while i < x.len() && i < y.len()
        invariant
            x@ == encode_utf8(a@),
            y@ == encode_utf8(b@),
            i <= x.len(),
            i <= y.len(),
            forall|j: int| 0 <= j < i ==> x@[j] == y@[j],
        decreases x.len() - i,
    {
        if x[i] < y[i] {
            proof {
                reveal(name_before);
                lemma_name_order_total(a@, b@);
                assert(differ_at(x@, y@, i as int));
            }
            return NameOrder::Before;
        }
        if x[i] > y[i] {
            proof {
                reveal(name_before);
                lemma_name_order_total(b@, a@);
                assert(differ_at(y@, x@, i as int));
            }
            return NameOrder::After;
        }
        i += 1;
    }
    if i < y.len() {
        proof {
            assert(differ_at(x@, y@, i as int));
        }
        NameOrder::Before
    } else if i < x.len() {
        proof {
            assert(differ_at(y@, x@, i as int));
        }
        NameOrder::After
    } else {
        proof {
            assert(x@ =~= y@);
            lemma_encoding_injective(a@, b@);
        }
        NameOrder::Same
    }
}

/// Whether two names are the same.
pub fn same_name(a: &str, b: &str) -> (r: bool)
    ensures
        r == (a@ == b@),
{
    match compare_names(a, b) {
        NameOrder::Same => true,
        _ => false,
    }
}

} // verus!
