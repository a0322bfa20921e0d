//! Names: bytes that become text, and the order in which names are listed.

use vstd::prelude::*;
use vstd::utf8::{decode_utf8, decode_utf8_encode_utf8, encode_utf8, valid_utf8};
use crate::codec::read_bytes;
use crate::error::{SgidiskLibReadError, ValueError};

verus! {

/// How one name stands to another in a listing.
#[derive(Debug, Clone, Copy, PartialEq, Eq)]
pub enum NameOrder {
    /// It is listed first.
    Before,
    /// It is the same name.
    Same,
    /// It is listed last.
    After,
}

/// Whether `a` comes before `b` when bytes are held against each other from
/// the front, and the shorter of two that agree comes first.
pub open spec fn lex_less(a: Seq<u8>, b: Seq<u8>) -> bool
    decreases a.len(),
{
    if b.len() == 0 {
        false
    } else if a.len() == 0 {
        true
    } else if a[0] != b[0] {
        a[0] < b[0]
    } else {
        lex_less(a.skip(1), b.skip(1))
    }
}

/// Whether the name `a` is listed before the name `b`: by the bytes of
/// their UTF-8 form.
pub open spec fn name_less(a: Seq<char>, b: Seq<char>) -> bool {
    lex_less(encode_utf8(a), encode_utf8(b))
}

/// Whether `a` and `b` are one name.
pub open spec fn same_name(a: Seq<char>, b: Seq<char>) -> bool {
    encode_utf8(a) == encode_utf8(b)
}

/// Nothing comes before itself.
pub proof fn lemma_lex_irreflexive(a: Seq<u8>)
    ensures
        !lex_less(a, a),
    decreases a.len(),
{
    if a.len() > 0 {
        lemma_lex_irreflexive(a.skip(1));
    }
}

/// What comes before something that comes before a third comes before the
/// third.
pub proof fn lemma_lex_transitive(a: Seq<u8>, b: Seq<u8>, c: Seq<u8>)
    requires
        lex_less(a, b),
        lex_less(b, c),
    ensures
        lex_less(a, c),
    decreases a.len(),
{
    if a.len() > 0 && a[0] == b[0] && b[0] == c[0] {
        lemma_lex_transitive(a.skip(1), b.skip(1), c.skip(1));
    }
}

/// Of two byte sequences one comes first, or they are equal.
pub proof fn lemma_lex_total(a: Seq<u8>, b: Seq<u8>)
    ensures
        lex_less(a, b) || a == b || lex_less(b, a),
    decreases a.len(),
{
    if a.len() > 0 && b.len() > 0 && a[0] == b[0] {
        lemma_lex_total(a.skip(1), b.skip(1));
        if a.skip(1) == b.skip(1) {
            assert(a =~= seq![a[0]] + a.skip(1));
            assert(b =~= seq![b[0]] + b.skip(1));
        }
    } else if a.len() == 0 && b.len() == 0 {
        assert(a =~= b);
    }
}

/// No two byte sequences come before each other.
pub proof fn lemma_lex_asymmetric(a: Seq<u8>, b: Seq<u8>)
    requires
        lex_less(a, b),
    ensures
        !lex_less(b, a),
        a != b,
{
    lemma_lex_irreflexive(a);
    if lex_less(b, a) {
        lemma_lex_transitive(a, b, a);
    }
}

/// What two byte sequences begin with alike does not decide their order.
pub proof fn lemma_lex_common_prefix(a: Seq<u8>, b: Seq<u8>, i: int)
    requires
        0 <= i <= a.len(),
        i <= b.len(),
        a.take(i) == b.take(i),
    ensures
        lex_less(a, b) == lex_less(a.skip(i), b.skip(i)),
    decreases i,
{
    if i == 0 {
        assert(a.skip(0) == a);
        assert(b.skip(0) == b);
    } else {
        assert(a[0] == a.take(i)[0]);
        assert(b[0] == b.take(i)[0]);
        assert(a.skip(1).take(i - 1) =~= a.take(i).skip(1));
        assert(b.skip(1).take(i - 1) =~= b.take(i).skip(1));
        lemma_lex_common_prefix(a.skip(1), b.skip(1), i - 1);
        assert(a.skip(1).skip(i - 1) == a.skip(i));
        assert(b.skip(1).skip(i - 1) == b.skip(i));
    }
}

/// Finds how the bytes `a` stand to the bytes `b`.
pub fn bytes_order(a: &[u8], b: &[u8]) -> (r: NameOrder)
    ensures
        r is Before <==> lex_less(a@, b@),
        r is Same <==> a@ == b@,
        r is After <==> lex_less(b@, a@),
{
    let mut i: usize = 0;
    assert(a@.take(0) =~= b@.take(0));
    while i < a.len() && i < b.len()
        invariant
            i <= a@.len(),
            i <= b@.len(),
            a@.take(i as int) == b@.take(i as int),
        decreases a@.len() - i,
    {
        if a[i] != b[i] {
            proof {
                lemma_lex_common_prefix(a@, b@, i as int);
                lemma_lex_common_prefix(b@, a@, i as int);
                assert(a@.skip(i as int)[0] == a@[i as int]);
                assert(b@.skip(i as int)[0] == b@[i as int]);
                if a@[i as int] < b@[i as int] {
                    lemma_lex_asymmetric(a@, b@);
                } else {
                    lemma_lex_asymmetric(b@, a@);
                }
            }
            if a[i] < b[i] {
                return NameOrder::Before;
            } else {
                return NameOrder::After;
            }
        }
        assert(a@.take(i + 1) =~= a@.take(i as int).push(a@[i as int]));
        assert(b@.take(i + 1) =~= b@.take(i as int).push(b@[i as int]));
        i += 1;
    }
    proof {
        lemma_lex_common_prefix(a@, b@, i as int);
        lemma_lex_common_prefix(b@, a@, i as int);
        lemma_lex_irreflexive(a@);
        if a@.len() == b@.len() {
            assert(a@.take(i as int) == a@);
            assert(b@.take(i as int) == b@);
        } else if a@.len() < b@.len() {
            lemma_lex_asymmetric(a@, b@);
        } else {
            lemma_lex_asymmetric(b@, a@);
        }
    }
    if a.len() == b.len() {
        NameOrder::Same
    } else if a.len() < b.len() {
        NameOrder::Before
    } else {
        NameOrder::After
    }
}

/// Turns bytes into the text that they spell in UTF-8, through std's
/// `String::from_utf8`: the text where the bytes are valid UTF-8, nothing
/// where they are not.
#[verifier::external_body]
pub(crate) fn string_from_utf8(bytes: Vec<u8>) -> (r: Option<String>)
    ensures
        r is Some <==> valid_utf8(bytes@),
        r is Some ==> r->Some_0@ == decode_utf8(bytes@),
{
    String::from_utf8(bytes).ok()
}

/// The text that bytes spell, as a name is read from them.
pub open spec fn spec_name_of(bytes: Seq<u8>) -> Result<Seq<char>, SgidiskLibReadError> {
    if valid_utf8(bytes) {
        Ok(decode_utf8(bytes))
    } else {
        Err(SgidiskLibReadError::Value(ValueError::NameNotUtf8))
    }
}

/// Reads a name from its bytes. The bytes of the name that comes back are
/// the bytes given.
pub fn name_of(bytes: &[u8]) -> (r: Result<String, SgidiskLibReadError>)
    ensures
        match r {
            Ok(name) => spec_name_of(bytes@) == Ok::<Seq<char>, SgidiskLibReadError>(name@),
            Err(e) => spec_name_of(bytes@) == Err::<Seq<char>, SgidiskLibReadError>(e),
        },
        r is Ok ==> encode_utf8(r->Ok_0@) == bytes@,
{
    let copy = read_bytes(bytes, 0, bytes.len());
    assert(copy@ == bytes@);
    match string_from_utf8(copy) {
        Some(name) => {
            proof {
                decode_utf8_encode_utf8(bytes@);
            }
            Ok(name)
        },
        None => Err(SgidiskLibReadError::Value(ValueError::NameNotUtf8)),
    }
}

/// How many bytes of `b` are left when the zero bytes at its end are cut.
pub open spec fn trimmed_len(b: Seq<u8>) -> int
    decreases b.len(),
{
    if b.len() == 0 {
        0
    } else if b.last() != 0 {
        b.len() as int
    } else {
        trimmed_len(b.drop_last())
    }
}

/// The name that a fixed block of bytes holds: none where the block is all
/// zero, else the text of the block without the zero bytes at its end.
pub open spec fn spec_bytes_to_string(b: Seq<u8>) -> Result<Option<Seq<char>>, SgidiskLibReadError> {
    if trimmed_len(b) == 0 {
        Ok(None)
    } else {
        match spec_name_of(b.take(trimmed_len(b))) {
            Ok(name) => Ok(Some(name)),
            Err(e) => Err(e),
        }
    }
}

/// The cut leaves a part of `b` from its start that ends in a byte that is
/// not zero, and cuts only zero bytes.
pub proof fn lemma_trimmed_len(b: Seq<u8>)
    ensures
        0 <= trimmed_len(b) <= b.len(),
        trimmed_len(b) > 0 ==> b[trimmed_len(b) - 1] != 0,
        forall|i: int| trimmed_len(b) <= i < b.len() ==> b[i] == 0,
        trimmed_len(b) == 0 <==> (forall|i: int| 0 <= i < b.len() ==> b[i] == 0),
    decreases b.len(),
{
    if b.len() > 0 && b.last() == 0 {
        let init = b.drop_last();
        lemma_trimmed_len(init);
        assert forall|i: int| trimmed_len(b) <= i < b.len() implies b[i] == 0 by {
            if i < init.len() {
                assert(init[i] == b[i]);
            }
        }
        if trimmed_len(b) == 0 {
            assert forall|i: int| 0 <= i < b.len() implies b[i] == 0 by {}
        }
        if forall|i: int| 0 <= i < b.len() ==> b[i] == 0 {
            assert forall|i: int| 0 <= i < init.len() implies init[i] == 0 by {
                assert(init[i] == b[i]);
            }
        }
    } else if b.len() > 0 {
        assert(b[b.len() - 1] != 0);
    }
}

/// A place behind which `b` is zero, and before which a byte is not, is
/// where the cut falls.
pub proof fn lemma_trimmed_len_unique(b: Seq<u8>, n: int)
    requires
        0 <= n <= b.len(),
        n > 0 ==> b[n - 1] != 0,
        forall|i: int| n <= i < b.len() ==> b[i] == 0,
    ensures
        trimmed_len(b) == n,
    decreases b.len(),
{
    if b.len() > 0 && n < b.len() {
        assert(b[b.len() - 1] == 0);
        lemma_trimmed_len_unique(b.drop_last(), n);
    }
}

/// Reads the name that a fixed block of bytes holds.
pub fn bytes_to_string(b: &[u8]) -> (r: Result<Option<String>, SgidiskLibReadError>)
    ensures
        match r {
            Ok(Some(name)) => spec_bytes_to_string(b@) == Ok::<
                Option<Seq<char>>,
                SgidiskLibReadError,
            >(Some(name@)),
            Ok(None) => spec_bytes_to_string(b@) == Ok::<Option<Seq<char>>, SgidiskLibReadError>(
                None,
            ),
            Err(e) => spec_bytes_to_string(b@) == Err::<Option<Seq<char>>, SgidiskLibReadError>(
                e,
            ),
        },
{
    let mut n: usize = b.len();
    while n > 0 && b[n - 1] == 0
        invariant
            n <= b@.len(),
            forall|i: int| n <= i < b@.len() ==> b@[i] == 0,
        decreases n,
    {
        n -= 1;
    }
    proof {
        lemma_trimmed_len_unique(b@, n as int);
    }
    if n == 0 {
        return Ok(None);
    }
    match name_of(&b[0..n]) {
        Ok(name) => Ok(Some(name)),
        Err(e) => Err(e),
    }
}

} // verus!
