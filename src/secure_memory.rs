//! Buffers for secret material that are wiped when cleared or dropped.

use vstd::prelude::*;
use vstd::slice::slice_to_vec;
use vstd::utf8::encode_utf8;

use zeroize::Zeroize;

verus! {

/// Relies on `Zeroize::zeroize` for `Vec<u8>`: it overwrites every element
/// and the spare capacity with zeros and then truncates the vector to length
/// zero.
#[verifier::external_body]
fn wipe_bytes(v: &mut Vec<u8>)
    ensures
        final(v)@.len() == 0,
    opens_invariants none
    no_unwind
{
    v.zeroize();
}

/// Relies on `Zeroize::zeroize` for `String`: it zeroes the underlying byte
/// vector, which leaves the string empty.
#[verifier::external_body]
fn wipe_string(s: &mut String)
    ensures
        final(s)@.len() == 0,
    opens_invariants none
    no_unwind
{
    s.zeroize();
}

/// Relies on `ring::rand::SystemRandom::fill`, which overwrites the slice in
/// place with bytes from the operating system's generator and reports
/// whether it could.
#[verifier::external_body]
fn system_fill(v: &mut Vec<u8>) -> (ok: bool)
    ensures
        final(v)@.len() == old(v)@.len(),
{
    ring::rand::SecureRandom::fill(&ring::rand::SystemRandom::new(), v.as_mut_slice()).is_ok()
}

/// A byte buffer whose contents are wiped when it is cleared or dropped.
#[derive(Clone)]
pub struct SecureBuffer {
    data: Vec<u8>,
}

impl View for SecureBuffer {
    type V = Seq<u8>;

    closed spec fn view(&self) -> Seq<u8> {
        self.data@
    }
}

impl SecureBuffer {
    /// A buffer of `size` zero bytes.
    pub fn new(size: usize) -> (r: SecureBuffer)
        ensures
            r@ == Seq::new(size as nat, |i: int| 0u8),
    {
        let data = vec![0u8; size];
        let r = SecureBuffer { data };
        assert(r@ =~= Seq::new(size as nat, |i: int| 0u8));
        r
    }

    /// A buffer holding a copy of `slice`.
    pub fn from_slice(slice: &[u8]) -> (r: SecureBuffer)
        ensures
            r@ == slice@,
    {
        SecureBuffer { data: slice_to_vec(slice) }
    }

    pub fn len(&self) -> (r: usize)
        ensures
            r == self@.len(),
    {
        self.data.len()
    }

    pub fn is_empty(&self) -> (r: bool)
        ensures
            r == (self@.len() == 0),
    {
        self.data.len() == 0
    }

    /// Wipes the contents; the buffer is empty afterwards.
    pub fn clear(&mut self)
        ensures
            final(self)@.len() == 0,
    {
        wipe_bytes(&mut self.data);
    }

    /// The bytes held.
    pub fn as_slice(&self) -> (r: &[u8])
        ensures
            r@ == self@,
    {
        self.data.as_slice()
    }

    /// Overwrites the contents with `bytes`, which must have the buffer's
    /// length.
    pub fn fill_from(&mut self, bytes: &[u8])
        requires
            bytes@.len() == old(self)@.len(),
        ensures
            final(self)@ == bytes@,
    {
        let mut i: usize = 0;
        while i < bytes.len()
            invariant
                i <= bytes@.len(),
                self.data@.len() == bytes@.len(),
                forall|j: int| 0 <= j < i ==> self.data@[j] == bytes@[j],
            decreases bytes@.len() - i,
        {
            self.data.set(i, bytes[i]);
            i = i + 1;
        }
        assert(self.data@ =~= bytes@);
    }
}

impl Drop for SecureBuffer {
    /// Wipes the bytes before the allocation is released.
    fn drop(&mut self)
        opens_invariants none
        no_unwind
    {
        wipe_bytes(&mut self.data);
    }
}

/// A string whose characters are wiped when it is dropped.
#[derive(Clone)]
pub struct SecureString {
    data: String,
}

impl View for SecureString {
    type V = Seq<char>;

    closed spec fn view(&self) -> Seq<char> {
        self.data@
    }
}

impl SecureString {
    pub fn new(s: &str) -> (r: SecureString)
        ensures
            r@ == s@,
    {
        SecureString { data: s.to_owned() }
    }

    pub fn from_string(s: String) -> (r: SecureString)
        ensures
            r@ == s@,
    {
        SecureString { data: s }
    }

    pub fn as_str(&self) -> (r: &str)
        ensures
            r@ == self@,
    {
        self.data.as_str()
    }

    /// Length in bytes of the UTF-8 encoding.
    pub fn len(&self) -> (r: usize)
        ensures
            r == encode_utf8(self@).len() as usize,
    {
        self.data.as_str().len()
    }

    pub fn is_empty(&self) -> (r: bool)
        ensures
            r == (self@.len() == 0),
    {
        self.data.as_str().is_empty()
    }

    /// Wipes the characters; the string is empty afterwards.
    pub fn clear(&mut self)
        ensures
            final(self)@.len() == 0,
    {
        wipe_string(&mut self.data);
    }
}

/// Overwrites the buffer with random bytes from the operating system; the
/// length is kept. Returns whether the generator succeeded.
pub fn secure_fill(buffer: &mut SecureBuffer) -> (ok: bool)
    ensures
        final(buffer)@.len() == old(buffer)@.len(),
{
    system_fill(&mut buffer.data)
}

impl Drop for SecureString {
    /// Wipes the characters before the allocation is released.
    fn drop(&mut self)
        opens_invariants none
        no_unwind
    {
        wipe_string(&mut self.data);
    }
}

/// Byte-wise equality that inspects every position regardless of where the
/// first difference occurs.
pub fn constant_time_compare(a: &[u8], b: &[u8]) -> (r: bool)
    ensures
        r == (a@ == b@),
{
    if a.len() != b.len() {
        return false;
    }
    let mut acc: u8 = 0;
    let mut i: usize = 0;
    while i < a.len()
        invariant
            a@.len() == b@.len(),
            i <= a@.len(),
            (acc == 0) == (forall|j: int| 0 <= j < i ==> a@[j] == b@[j]),
        decreases a@.len() - i,
    {
        let x = a[i];
        let y = b[i];
        let next = acc | (x ^ y);
        assert((next == 0) == (acc == 0 && x == y)) by (bit_vector)
            requires
                next == acc | (x ^ y),
        ;
        acc = next;
        i = i + 1;
    }
    proof {
        if acc == 0 {
            assert(a@ =~= b@);
        }
    }
    acc == 0
}

} // verus!
