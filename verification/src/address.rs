use vstd::prelude::*;

verus! {

/// Lexicographic order on byte strings: the order of `Vec<u8>` and of
/// byte-string comparison, in which a proper prefix comes first.
pub open spec fn lex_lt(a: Seq<u8>, b: Seq<u8>) -> bool
    decreases a.len(),
{
    if b.len() == 0 {
        false
    } else if a.len() == 0 {
        true
    } else if a[0] != b[0] {
        a[0] < b[0]
    } else {
        lex_lt(a.drop_first(), b.drop_first())
    }
}

/// Whether the bytes are the XDR encoding of an address value: the tag of an
/// address value (18), then either an account (kind 0, key type 0 and a
/// 32-byte Ed25519 key) or a contract (kind 1 and a 32-byte hash).
pub open spec fn is_address_encoding(b: Seq<u8>) -> bool {
    &&& b.len() >= 8
    &&& b[0] == 0 && b[1] == 0 && b[2] == 0 && b[3] == 18
    &&& b[4] == 0 && b[5] == 0 && b[6] == 0
    &&& {
        ||| b[7] == 0 && b.len() == 44 && b[8] == 0 && b[9] == 0 && b[10] == 0 && b[11] == 0
        ||| b[7] == 1 && b.len() == 40
    }
}

/// The order in which a token pair is stored: the smaller address first.
pub open spec fn canonical(a: Seq<u8>, b: Seq<u8>) -> (Seq<u8>, Seq<u8>) {
    if lex_lt(a, b) {
        (a, b)
    } else {
        (b, a)
    }
}

/// No byte string comes before itself.
pub proof fn lemma_lex_irreflexive(a: Seq<u8>)
    ensures
        !lex_lt(a, a),
    decreases a.len(),
{
    if a.len() > 0 {
        lemma_lex_irreflexive(a.drop_first());
    }
}

/// Of two byte strings, at most one comes before the other.
pub proof fn lemma_lex_asymmetric(a: Seq<u8>, b: Seq<u8>)
    ensures
        !(lex_lt(a, b) && lex_lt(b, a)),
    decreases a.len(),
{
    if a.len() > 0 && b.len() > 0 && a[0] == b[0] {
        lemma_lex_asymmetric(a.drop_first(), b.drop_first());
    }
}

/// Of two distinct byte strings, one comes before the other.
pub proof fn lemma_lex_total(a: Seq<u8>, b: Seq<u8>)
    requires
        a != b,
    ensures
        lex_lt(a, b) || lex_lt(b, a),
    decreases a.len(),
{
    if a.len() > 0 && b.len() > 0 && a[0] == b[0] {
        if a.drop_first() == b.drop_first() {
            assert(a =~= seq![a[0]] + a.drop_first());
            assert(b =~= seq![b[0]] + b.drop_first());
        }
        lemma_lex_total(a.drop_first(), b.drop_first());
    } else if a.len() == 0 && b.len() == 0 {
        assert(a =~= b);
    }
}

/// The stored order of a token pair does not depend on the order in which the
/// two tokens are given.
pub proof fn lemma_canonical_symmetric(a: Seq<u8>, b: Seq<u8>)
    ensures
        canonical(a, b) == canonical(b, a),
{
    lemma_lex_asymmetric(a, b);
    if a != b {
        lemma_lex_total(a, b);
    }
}

/// The stored order puts the smaller address first and keeps both tokens.
pub proof fn lemma_canonical_ordered(a: Seq<u8>, b: Seq<u8>)
    ensures
        !lex_lt(canonical(a, b).1, canonical(a, b).0),
        (canonical(a, b) == (a, b)) || (canonical(a, b) == (b, a)),
{
    lemma_lex_asymmetric(a, b);
}

/// An address, held as its canonical byte encoding (the XDR encoding of the
/// address value). Addresses are ordered as these bytes are.
pub struct AddressKey {
    bytes: Vec<u8>,
}

impl View for AddressKey {
    type V = Seq<u8>;

    closed spec fn view(&self) -> Seq<u8> {
        self.bytes@
    }
}

proof fn lemma_lex_step(a: Seq<u8>, b: Seq<u8>, i: int)
    requires
        0 <= i < a.len(),
        i < b.len(),
    ensures
        lex_lt(a.skip(i), b.skip(i)) == if a[i] != b[i] {
            a[i] < b[i]
        } else {
            lex_lt(a.skip(i + 1), b.skip(i + 1))
        },
{
    assert(a.skip(i).drop_first() =~= a.skip(i + 1));
    assert(b.skip(i).drop_first() =~= b.skip(i + 1));
}

impl AddressKey {
    pub fn new(bytes: Vec<u8>) -> (r: AddressKey)
        ensures
            r@ == bytes@,
    {
        AddressKey { bytes }
    }

    /// The encoding of the address.
    pub fn bytes(&self) -> (r: &Vec<u8>)
        ensures
            r@ == self@,
    {
        &self.bytes
    }

    /// Whether the key is the encoding of an address value.
    pub fn encodes_address(&self) -> (r: bool)
        ensures
            r == is_address_encoding(self@),
    {
        let b = &self.bytes;
        if b.len() < 8 {
            return false;
        }
        if !(b[0] == 0 && b[1] == 0 && b[2] == 0 && b[3] == 18 && b[4] == 0 && b[5] == 0 && b[6] == 0) {
            return false;
        }
        if b[7] == 0 {
            b.len() == 44 && b[8] == 0 && b[9] == 0 && b[10] == 0 && b[11] == 0
        } else {
            b[7] == 1 && b.len() == 40
        }
    }

    /// A second key for the same address.
    pub fn duplicate(&self) -> (r: AddressKey)
        ensures
            r@ == self@,
    {
        let bytes = self.bytes.clone();
        assert(bytes@ =~= self.bytes@);
        AddressKey { bytes }
    }

    /// Whether both keys denote the same address.
    pub fn same_as(&self, other: &AddressKey) -> (r: bool)
        ensures
            r == (self@ == other@),
    {
        let n = self.bytes.len();
        if n != other.bytes.len() {
            return false;
        }
        let mut i: usize = 0;
        while i < n
            invariant
                n == self.bytes@.len(),
                n == other.bytes@.len(),
                i <= n,
                forall|j: int| 0 <= j < i ==> self.bytes@[j] == other.bytes@[j],
            decreases n - i,
        {
            if self.bytes[i] != other.bytes[i] {
                return false;
            }
            i = i + 1;
        }
        assert(self.bytes@ =~= other.bytes@);
        true
    }

    /// Whether this address comes before `other`.
    pub fn less_than(&self, other: &AddressKey) -> (r: bool)
        ensures
            r == lex_lt(self@, other@),
    {
        let a = &self.bytes;
        let b = &other.bytes;
        let n_a = a.len();
        let n_b = b.len();
        let mut i: usize = 0;
        assert(a@.skip(0) =~= a@);
        assert(b@.skip(0) =~= b@);
        while i < n_a && i < n_b
            invariant
                a@ == self@,
                b@ == other@,
                n_a == a@.len(),
                n_b == b@.len(),
                i <= n_a,
                i <= n_b,
                lex_lt(a@, b@) == lex_lt(a@.skip(i as int), b@.skip(i as int)),
            decreases n_a - i,
        {
            proof {
                lemma_lex_step(a@, b@, i as int);
            }
            if a[i] != b[i] {
                return a[i] < b[i];
            }
            i = i + 1;
        }
        i < n_b
    }
}

/// Puts a token pair in its stored order: the smaller address first.
pub fn sort_pair(a: AddressKey, b: AddressKey) -> (r: (AddressKey, AddressKey))
    ensures
        (r.0@, r.1@) == canonical(a@, b@),
{
    if a.less_than(&b) {
        (a, b)
    } else {
        (b, a)
    }
}

} // verus!
