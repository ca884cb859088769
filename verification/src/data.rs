//! Value and blob payload types, library identity, and the little-endian
//! numeric model over byte strings that all arithmetic contracts use.

use vstd::prelude::*;

verus! {

/// Largest number of bytes a register value may hold (an `R` register of
/// 8192 bits).
pub const MAX_VALUE_BYTES: u16 = 1024;

/// Largest number of bytes a blob may hold.
pub const MAX_BLOB_BYTES: u16 = 0xFFFF;

/// 256 raised to the power `n`: the weight of the byte at position `n` in a
/// little-endian byte string.
pub open spec fn pow256(n: nat) -> nat
    decreases n,
{
    if n == 0 {
        1
    } else {
        256 * pow256((n - 1) as nat)
    }
}

/// The natural number denoted by a little-endian byte string.
pub open spec fn le_nat(s: Seq<u8>) -> nat
    decreases s.len(),
{
    if s.len() == 0 {
        0
    } else {
        s[0] as nat + 256 * le_nat(s.skip(1))
    }
}

/// A byte string of `n` zero bytes.
pub open spec fn zeros(n: nat) -> Seq<u8> {
    Seq::new(n, |i: int| 0u8)
}

pub proof fn lemma_pow256_pos(n: nat)
    ensures
        pow256(n) >= 1,
    decreases n,
{
    if n > 0 {
        lemma_pow256_pos((n - 1) as nat);
    }
}

pub proof fn lemma_pow256_adds(a: nat, b: nat)
    ensures
        pow256(a + b) == pow256(a) * pow256(b),
    decreases a,
{
    if a == 0 {
        assert(pow256(0 + b) == 1 * pow256(b)) by {
            lemma_pow256_pos(b);
        }
    } else {
        lemma_pow256_adds((a - 1) as nat, b);
        assert(pow256(a + b) == 256 * pow256((a + b - 1) as nat));
        assert(256 * (pow256((a - 1) as nat) * pow256(b)) == (256 * pow256((a - 1) as nat))
            * pow256(b)) by (nonlinear_arith);
    }
}

pub proof fn lemma_pow256_mono(a: nat, b: nat)
    requires
        a <= b,
    ensures
        pow256(a) <= pow256(b),
    decreases b,
{
    if a < b && b > 0 {
        lemma_pow256_mono(a, (b - 1) as nat);
        lemma_pow256_pos((b - 1) as nat);
    }
}

/// The value of a byte string is below the weight of the first byte past it.
pub proof fn lemma_le_nat_bound(s: Seq<u8>)
    ensures
        le_nat(s) < pow256(s.len()),
    decreases s.len(),
{
    if s.len() > 0 {
        lemma_le_nat_bound(s.skip(1));
        let x = le_nat(s.skip(1));
        let p = pow256((s.len() - 1) as nat);
        assert(256 * x <= 256 * (p - 1)) by (nonlinear_arith)
            requires
                x <= p - 1,
        ;
    }
}

/// Splitting a byte string at `k` splits its value at weight `pow256(k)`.
pub proof fn lemma_le_nat_split(s: Seq<u8>, k: int)
    requires
        0 <= k <= s.len(),
    ensures
        le_nat(s) == le_nat(s.take(k)) + pow256(k as nat) * le_nat(s.skip(k)),
    decreases k,
{
    if k == 0 {
        assert(s.take(0) =~= Seq::<u8>::empty());
        assert(s.skip(0) =~= s);
        assert(le_nat(s.take(0)) == 0);
        assert(pow256(0nat) == 1);
        assert(le_nat(s.skip(0)) == le_nat(s));
        assert(pow256(0nat) * le_nat(s.skip(0)) == le_nat(s)) by (nonlinear_arith)
            requires
                pow256(0nat) == 1,
                le_nat(s.skip(0)) == le_nat(s),
        ;
    } else {
        lemma_le_nat_split(s.skip(1), k - 1);
        assert(s.skip(1).take(k - 1) =~= s.take(k).skip(1));
        assert(s.skip(1).skip(k - 1) =~= s.skip(k));
        assert(s.take(k)[0] == s[0]);
        assert(s.take(k).len() == k);
        let a = le_nat(s.skip(1).take(k - 1));
        let b = le_nat(s.skip(k));
        let p = pow256((k - 1) as nat);
        assert(le_nat(s.skip(1)) == a + p * b);
        assert(le_nat(s) == s[0] as nat + 256 * (a + p * b));
        assert(le_nat(s.take(k).skip(1)) == a);
        assert(le_nat(s.take(k)) == s[0] as nat + 256 * a);
        assert(256 * (a + p * b) == 256 * a + (256 * p) * b) by (nonlinear_arith);
        assert(pow256(k as nat) == 256 * p);
        assert(le_nat(s) == le_nat(s.take(k)) + pow256(k as nat) * le_nat(s.skip(k)));
    }
}

/// A byte string denotes zero exactly when every byte of it is zero.
pub proof fn lemma_le_nat_zero(s: Seq<u8>)
    ensures
        le_nat(s) == 0 <==> (forall|i: int| 0 <= i < s.len() ==> s[i] == 0),
    decreases s.len(),
{
    if s.len() > 0 {
        lemma_le_nat_zero(s.skip(1));
        if le_nat(s) == 0 {
            assert(forall|i: int| 0 <= i < s.len() ==> s[i] == 0) by {
                assert(forall|i: int|
                    1 <= i < s.len() ==> s[i] == s.skip(1)[i - 1] && s.skip(1)[i - 1] == 0);
            }
        }
        if forall|i: int| 0 <= i < s.len() ==> s[i] == 0 {
            assert(forall|i: int| 0 <= i < s.skip(1).len() ==> s.skip(1)[i] == s[i + 1]);
        }
    }
}

/// Appending zero bytes does not change the denoted value.
pub proof fn lemma_le_nat_pad(s: Seq<u8>, t: Seq<u8>)
    requires
        s.len() <= t.len(),
        t.take(s.len() as int) =~= s,
        forall|i: int| s.len() <= i < t.len() ==> t[i] == 0,
    ensures
        le_nat(t) == le_nat(s),
{
    lemma_le_nat_split(t, s.len() as int);
    lemma_le_nat_zero(t.skip(s.len() as int));
    assert(pow256(s.len()) * 0 == 0);
}

/// With the bytes above position `i` equal, a smaller byte at `i` gives a
/// smaller value.
pub proof fn lemma_le_nat_cmp(a: Seq<u8>, b: Seq<u8>, i: int)
    requires
        a.len() == b.len(),
        0 <= i < a.len(),
        forall|j: int| i < j < a.len() ==> a[j] == b[j],
        a[i] < b[i],
    ensures
        le_nat(a) < le_nat(b),
{
    let n = a.len() as int;
    lemma_le_nat_split(a, i + 1);
    lemma_le_nat_split(b, i + 1);
    assert(a.skip(i + 1) =~= b.skip(i + 1));
    let h = le_nat(a.skip(i + 1));
    let p = pow256((i + 1) as nat);
    lemma_le_nat_split(a.take(i + 1), i);
    lemma_le_nat_split(b.take(i + 1), i);
    assert(a.take(i + 1).take(i) =~= a.take(i));
    assert(b.take(i + 1).take(i) =~= b.take(i));
    let q = pow256(i as nat);
    let sa = a.take(i + 1).skip(i);
    let sb = b.take(i + 1).skip(i);
    assert(sa =~= seq![a[i]]);
    assert(sb =~= seq![b[i]]);
    assert(sa.skip(1) =~= Seq::<u8>::empty());
    assert(sb.skip(1) =~= Seq::<u8>::empty());
    assert(le_nat(sa.skip(1)) == 0);
    assert(le_nat(sb.skip(1)) == 0);
    assert(le_nat(sa) == a[i] as nat);
    assert(le_nat(sb) == b[i] as nat);
    lemma_le_nat_bound(a.take(i));
    assert(le_nat(a.take(i + 1)) < q * (a[i] as nat + 1)) by (nonlinear_arith)
        requires
            le_nat(a.take(i + 1)) == le_nat(a.take(i)) + q * (a[i] as nat),
            le_nat(a.take(i)) < q,
    ;
    assert(q * (a[i] as nat + 1) <= q * (b[i] as nat)) by (nonlinear_arith)
        requires
            a[i] as nat + 1 <= b[i] as nat,
            q >= 0,
    ;
    assert(le_nat(b.take(i + 1)) >= q * (b[i] as nat));
    assert(le_nat(b.take(i)) >= 0);
}

/// A fixed-capacity little-endian numeric payload. The active length is the
/// length of `bytes`; readers of a register treat missing high bytes as zero
/// padding.
#[derive(Clone, PartialEq, Eq, Debug)]
pub struct Value {
    /// Little-endian payload bytes.
    pub bytes: Vec<u8>,
}

impl Value {
    /// A value never holds more bytes than the widest register.
    pub open spec fn wf(self) -> bool {
        self.bytes@.len() <= MAX_VALUE_BYTES
    }

    /// The number this value denotes.
    pub open spec fn val(self) -> nat {
        le_nat(self.bytes@)
    }

    /// Wraps a byte string as a value.
    pub fn with(bytes: Vec<u8>) -> (r: Value)
        requires
            bytes@.len() <= MAX_VALUE_BYTES,
        ensures
            r.wf(),
            r.bytes@ == bytes@,
    {
        Value { bytes }
    }

    /// The all-zero value of `n` bytes.
    pub fn zero(n: u16) -> (r: Value)
        requires
            n <= MAX_VALUE_BYTES,
        ensures
            r.wf(),
            r.bytes@ =~= zeros(n as nat),
            r.val() == 0,
    {
        let mut bytes: Vec<u8> = Vec::new();
        let mut i: u16 = 0;
        while i < n
            invariant
                i <= n,
                bytes@.len() == i as nat,
                forall|k: int| 0 <= k < i ==> bytes@[k] == 0,
            decreases n - i,
        {
            bytes.push(0);
            i = i + 1;
        }
        proof {
            assert(bytes@ =~= zeros(n as nat));
            lemma_le_nat_zero(bytes@);
        }
        Value { bytes }
    }

    /// Number of active bytes.
    pub fn len(&self) -> (r: u16)
        requires
            self.wf(),
        ensures
            r == self.bytes@.len(),
    {
        self.bytes.len() as u16
    }
}

/// What a byte string becomes when capped at `cap` bytes: the most
/// significant bytes beyond the cap are dropped.
pub open spec fn trunc_spec(s: Seq<u8>, cap: nat) -> Seq<u8> {
    if s.len() <= cap {
        s
    } else {
        s.take(cap as int)
    }
}

/// Truncation keeps the value modulo `pow256(cap)` when the dropped part is
/// what does not fit, and never raises the value.
pub proof fn lemma_trunc_le_nat(s: Seq<u8>, cap: nat)
    ensures
        le_nat(trunc_spec(s, cap)) == le_nat(s) % pow256(cap),
{
    lemma_pow256_pos(cap);
    if s.len() <= cap {
        lemma_le_nat_bound(s);
        lemma_pow256_mono(s.len(), cap);
        vstd::arithmetic::div_mod::lemma_small_mod(le_nat(s), pow256(cap));
    } else {
        lemma_le_nat_split(s, cap as int);
        lemma_le_nat_bound(s.take(cap as int));
        let lo = le_nat(s.take(cap as int));
        let hi = le_nat(s.skip(cap as int));
        let p = pow256(cap);
        assert((lo + p * hi) % p == lo) by (nonlinear_arith)
            requires
                0 <= lo < p,
                hi >= 0,
        ;
    }
}

impl Value {
    /// A copy of this value capped at `cap` bytes; the most significant
    /// bytes that do not fit are dropped.
    pub fn trunc(&self, cap: u16) -> (r: Value)
        requires
            self.wf(),
            cap <= MAX_VALUE_BYTES,
        ensures
            r.wf(),
            r.bytes@ == trunc_spec(self.bytes@, cap as nat),
            r.bytes@.len() <= cap,
    {
        let n: usize = if self.bytes.len() <= cap as usize {
            self.bytes.len()
        } else {
            cap as usize
        };
        let mut bytes: Vec<u8> = Vec::new();
        let mut i: usize = 0;
        while i < n
            invariant
                i <= n,
                n <= self.bytes@.len(),
                bytes@ =~= self.bytes@.take(i as int),
            decreases n - i,
        {
            bytes.push(self.bytes[i]);
            i = i + 1;
        }
        proof {
            if self.bytes@.len() <= cap as nat {
                assert(bytes@ =~= self.bytes@);
            }
        }
        Value { bytes }
    }

    /// Whether this value is below `pow256(cap)`, that is, fits in `cap`
    /// bytes.
    pub fn fits(&self, cap: u16) -> (r: bool)
        requires
            self.wf(),
        ensures
            r == (self.val() < pow256(cap as nat)),
    {
        proof {
            lemma_pow256_pos(cap as nat);
        }
        if self.bytes.len() <= cap as usize {
            proof {
                lemma_le_nat_bound(self.bytes@);
                lemma_pow256_mono(self.bytes@.len(), cap as nat);
            }
            true
        } else {
            let mut i: usize = cap as usize;
            let n = self.bytes.len();
            let mut all0 = true;
            while i < n
                invariant
                    cap as int <= i <= n,
                    n == self.bytes@.len(),
                    all0 == (forall|k: int| cap as int <= k < i ==> self.bytes@[k] == 0),
                decreases n - i,
            {
                if self.bytes[i] != 0 {
                    all0 = false;
                }
                i = i + 1;
            }
            proof {
                lemma_le_nat_split(self.bytes@, cap as int);
                lemma_le_nat_zero(self.bytes@.skip(cap as int));
                lemma_le_nat_bound(self.bytes@.take(cap as int));
                let lo = le_nat(self.bytes@.take(cap as int));
                let hi = le_nat(self.bytes@.skip(cap as int));
                let p = pow256(cap as nat);
                let sk = self.bytes@.skip(cap as int);
                assert(forall|k: int| 0 <= k < sk.len() ==> sk[k] == self.bytes@[k + cap as int]);
                if all0 {
                    assert(forall|k: int| 0 <= k < sk.len() ==> sk[k] == 0);
                    assert(hi == 0);
                } else {
                    assert(!(forall|k: int| 0 <= k < sk.len() ==> sk[k] == 0)) by {
                        if forall|k: int| 0 <= k < sk.len() ==> sk[k] == 0 {
                            assert(forall|k: int|
                                cap as int <= k < self.bytes@.len() ==> self.bytes@[k] == sk[k
                                    - cap as int] && sk[k - cap as int] == 0);
                        }
                    }
                    assert(hi > 0);
                    assert(lo + p * hi >= p) by (nonlinear_arith)
                        requires
                            lo >= 0,
                            hi >= 1,
                            p >= 1,
                    ;
                }
                assert(le_nat(self.bytes@) == lo + p * hi);
                assert(all0 == (self.val() < pow256(cap as nat)));
            }
            all0
        }
    }

    /// A copy of this value with the same bytes.
    pub fn clone_value(&self) -> (r: Value)
        ensures
            r.bytes@ == self.bytes@,
    {
        let mut bytes: Vec<u8> = Vec::new();
        let mut i: usize = 0;
        let n = self.bytes.len();
        while i < n
            invariant
                0 <= i <= n,
                n == self.bytes@.len(),
                bytes@ =~= self.bytes@.take(i as int),
            decreases n - i,
        {
            bytes.push(self.bytes[i]);
            i = i + 1;
        }
        proof {
            assert(bytes@ =~= self.bytes@);
        }
        Value { bytes }
    }

    /// Numeric comparison: whether this value denotes a smaller number than
    /// `other`. Length padding is ignored.
    pub fn num_lt(&self, other: &Value) -> (r: bool)
        requires
            self.wf(),
            other.wf(),
        ensures
            r == (self.val() < other.val()),
    {
        let alen = self.bytes.len();
        let blen = other.bytes.len();
        let n: usize = if alen < blen {
            blen
        } else {
            alen
        };
        let ghost pa = self.bytes@ + zeros((n - alen) as nat);
        let ghost pb = other.bytes@ + zeros((n - blen) as nat);
        proof {
            assert(pa.take(alen as int) =~= self.bytes@);
            assert(pb.take(blen as int) =~= other.bytes@);
            lemma_le_nat_pad(self.bytes@, pa);
            lemma_le_nat_pad(other.bytes@, pb);
        }
        let mut i: usize = n;
        while i > 0
            invariant
                0 <= i <= n,
                n == pa.len() && n == pb.len(),
                alen == self.bytes@.len() && blen == other.bytes@.len(),
                alen <= n && blen <= n,
                pa == self.bytes@ + zeros((n - alen) as nat),
                pb == other.bytes@ + zeros((n - blen) as nat),
                le_nat(pa) == self.val(),
                le_nat(pb) == other.val(),
                forall|j: int| i <= j < n ==> pa[j] == pb[j],
            decreases i,
        {
            i = i - 1;
            let x: u8 = if i < alen {
                self.bytes[i]
            } else {
                0
            };
            let y: u8 = if i < blen {
                other.bytes[i]
            } else {
                0
            };
            if x != y {
                proof {
                    assert(pa[i as int] == x);
                    assert(pb[i as int] == y);
                    if x < y {
                        lemma_le_nat_cmp(pa, pb, i as int);
                    } else {
                        lemma_le_nat_cmp(pb, pa, i as int);
                    }
                }
                return x < y;
            }
        }
        proof {
            assert(pa =~= pb);
        }
        false
    }

    /// Numeric equality of two values, padding ignored.
    pub fn num_eq(&self, other: &Value) -> (r: bool)
        requires
            self.wf(),
            other.wf(),
        ensures
            r == (self.val() == other.val()),
    {
        !self.num_lt(other) && !other.num_lt(self)
    }
}

/// A variable-length byte string of at most 65,535 bytes.
#[derive(Clone, PartialEq, Eq, Debug)]
pub struct Blob {
    /// The payload.
    pub bytes: Vec<u8>,
}

impl Blob {
    pub open spec fn wf(self) -> bool {
        self.bytes@.len() <= MAX_BLOB_BYTES
    }

    /// Wraps a byte string as a blob.
    pub fn with(bytes: Vec<u8>) -> (r: Blob)
        requires
            bytes@.len() <= MAX_BLOB_BYTES,
        ensures
            r.wf(),
            r.bytes@ == bytes@,
    {
        Blob { bytes }
    }

    /// Number of bytes held.
    pub fn len(&self) -> (r: u16)
        requires
            self.wf(),
        ensures
            r == self.bytes@.len(),
    {
        self.bytes.len() as u16
    }

    /// A copy of this blob with the same bytes.
    pub fn clone_blob(&self) -> (r: Blob)
        ensures
            r.bytes@ == self.bytes@,
    {
        let mut bytes: Vec<u8> = Vec::new();
        let mut i: usize = 0;
        let n = self.bytes.len();
        while i < n
            invariant
                0 <= i <= n,
                n == self.bytes@.len(),
                bytes@ =~= self.bytes@.take(i as int),
            decreases n - i,
        {
            bytes.push(self.bytes[i]);
            i = i + 1;
        }
        proof {
            assert(bytes@ =~= self.bytes@);
        }
        Blob { bytes }
    }
}

/// Content address of a code library: the 32-byte hash of its bytecode.
#[derive(Clone, Copy, PartialEq, Eq, Debug)]
pub struct LibHash {
    /// Hash bytes.
    pub bytes: [u8; 32],
}

/// A position inside a specific library: `(offset, library hash)`.
#[derive(Clone, Copy, PartialEq, Eq, Debug)]
pub struct LibSite {
    /// Byte offset within the library's bytecode.
    pub pos: u16,
    /// Identity of the library.
    pub lib: LibHash,
}

impl LibSite {
    /// Constructs a site from an offset and a library hash.
    pub fn with(pos: u16, lib: LibHash) -> (r: LibSite)
        ensures
            r.pos == pos,
            r.lib == lib,
    {
        LibSite { pos, lib }
    }
}

/// What SHA-256 returns on a byte string; the result depends on the bytes
/// alone.
pub uninterp spec fn sha256_of(s: Seq<u8>) -> Seq<u8>;

/// Relies on bitcoin_hashes::sha256::Hash::hash: the 32-byte SHA-256 digest
/// of the input, a function of the input bytes alone.
#[verifier::external_body]
fn sha256_digest(data: &Vec<u8>) -> (r: [u8; 32])
    ensures
        r@ == sha256_of(data@),
{
    bitcoin_hashes::sha256::Hash::hash(data.as_slice()).to_byte_array()
}

/// The content address of a library: the SHA-256 digest of its bytecode.
pub fn lib_id(bytecode: &Vec<u8>) -> (r: LibHash)
    ensures
        r.bytes@ == sha256_of(bytecode@),
{
    LibHash { bytes: sha256_digest(bytecode) }
}

} // verus!
