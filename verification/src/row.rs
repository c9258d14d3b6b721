//! The row value type: one record of the fixed schema.
//!
//! A row owns fixed-width byte buffers for its two text fields, together
//! with the actual length of each; unused suffix bytes are kept zero so a
//! buffer can be copied to its slot on disk as it stands.

use vstd::prelude::*;

use crate::EMAIL_SIZE;
use crate::USERNAME_SIZE;

verus! {

/// The mathematical content of a row: the id and exactly the bytes that
/// were stored in each text field, without the zero padding.
#[verifier::ext_equal]
pub ghost struct RowAbs {
    pub id: u32,
    pub username: Seq<u8>,
    pub email: Seq<u8>,
}

impl RowAbs {
    /// Both text fields fit their on-disk widths.
    pub open spec fn wf(self) -> bool {
        self.username.len() <= USERNAME_SIZE && self.email.len() <= EMAIL_SIZE
    }
}

/// One record: an id plus two bounded text fields held in fixed-width,
/// zero-padded buffers.
pub struct SimpleRow {
    pub id: u32,
    pub username: Vec<u8>,
    pub username_len: usize,
    pub email: Vec<u8>,
    pub email_len: usize,
}

impl View for SimpleRow {
    type V = RowAbs;

    open spec fn view(&self) -> RowAbs {
        RowAbs {
            id: self.id,
            username: self.username@.subrange(0, self.username_len as int),
            email: self.email@.subrange(0, self.email_len as int),
        }
    }
}

impl SimpleRow {
    /// The buffers have their fixed widths, the recorded lengths are in
    /// bounds, and every byte past a recorded length is zero.
    pub open spec fn wf(self) -> bool {
        &&& self.username@.len() == USERNAME_SIZE
        &&& self.username_len <= USERNAME_SIZE
        &&& forall|i: int|
            self.username_len <= i < USERNAME_SIZE ==> self.username@[i] == 0u8
        &&& self.email@.len() == EMAIL_SIZE
        &&& self.email_len <= EMAIL_SIZE
        &&& forall|i: int| self.email_len <= i < EMAIL_SIZE ==> self.email@[i] == 0u8
    }

    /// A fresh row: id zero, both text fields empty, buffers zero-filled.
    pub fn new() -> (r: SimpleRow)
        ensures
            r.wf(),
            r@.id == 0,
            r@.username == Seq::<u8>::empty(),
            r@.email == Seq::<u8>::empty(),
    {
        let mut username: Vec<u8> = Vec::new();
        let mut i: usize = 0;
        while i < USERNAME_SIZE
            invariant
                i <= USERNAME_SIZE,
                username@.len() == i,
                forall|j: int| 0 <= j < i ==> username@[j] == 0u8,
            decreases USERNAME_SIZE - i,
        {
            username.push(0u8);
            i = i + 1;
        }
        let mut email: Vec<u8> = Vec::new();
        let mut k: usize = 0;
        while k < EMAIL_SIZE
            invariant
                k <= EMAIL_SIZE,
                email@.len() == k,
                forall|j: int| 0 <= j < k ==> email@[j] == 0u8,
            decreases EMAIL_SIZE - k,
        {
            email.push(0u8);
            k = k + 1;
        }
        let r = SimpleRow { id: 0, username, username_len: 0, email, email_len: 0 };
        assert(r@.username =~= Seq::<u8>::empty());
        assert(r@.email =~= Seq::<u8>::empty());
        r
    }

    /// The id of this row.
    pub fn get_id(&self) -> (r: u32)
        ensures
            r == self@.id,
    {
        self.id
    }

    /// Store a new id; always succeeds.
    pub fn set_id(&mut self, new_id: u32) -> (ok: bool)
        ensures
            ok,
            final(self)@ == (RowAbs { id: new_id, ..old(self)@ }),
            old(self).wf() ==> final(self).wf(),
    {
        self.id = new_id;
        true
    }

    /// The stored username: exactly the bytes that were set.
    pub fn get_username(&self) -> (r: Vec<u8>)
        requires
            self.wf(),
        ensures
            r@ == self@.username,
    {
        let mut out: Vec<u8> = Vec::new();
        let mut i: usize = 0;
        while i < self.username_len
            invariant
                self.wf(),
                i <= self.username_len,
                out@ == self.username@.subrange(0, i as int),
            decreases self.username_len - i,
        {
            let b = self.username[i];
            out.push(b);
            assert(out@ =~= self.username@.subrange(0, i + 1 as int));
            i = i + 1;
        }
        out
    }

    /// Store a new username. Fails, changing nothing, when the text is
    /// longer than its on-disk width; otherwise copies the bytes into the
    /// buffer, zero-pads the remainder, and records the length.
    pub fn set_username(&mut self, new_username: &Vec<u8>) -> (ok: bool)
        requires
            old(self).wf(),
        ensures
            final(self).wf(),
            ok <==> new_username@.len() <= USERNAME_SIZE,
            ok ==> final(self)@ == (RowAbs { username: new_username@, ..old(self)@ }),
            !ok ==> *final(self) == *old(self),
    {
        if new_username.len() > USERNAME_SIZE {
            return false;
        }
        let ghost prev = *old(self);
        let n = new_username.len();
        let mut i: usize = 0;
        while i < USERNAME_SIZE
            invariant
                n == new_username@.len() <= USERNAME_SIZE,
                i <= USERNAME_SIZE,
                self.username@.len() == USERNAME_SIZE,
                forall|j: int| 0 <= j < i && j < n ==> self.username@[j] == new_username@[j],
                forall|j: int| n <= j < i ==> self.username@[j] == 0u8,
                forall|j: int| i <= j < USERNAME_SIZE ==> self.username@[j] == prev.username@[j],
                self.id == prev.id,
                self.email == prev.email,
                self.email_len == prev.email_len,
                self.username_len == prev.username_len,
                prev.wf(),
            decreases USERNAME_SIZE - i,
        {
            if i < n {
                let b = new_username[i];
                self.username.set(i, b);
            } else {
                self.username.set(i, 0u8);
            }
            i = i + 1;
        }
        self.username_len = n;
        assert(self@.username =~= new_username@);
        assert(self@.email =~= prev@.email);
        true
    }

    /// The stored email: exactly the bytes that were set.
    pub fn get_email(&self) -> (r: Vec<u8>)
        requires
            self.wf(),
        ensures
            r@ == self@.email,
    {
        let mut out: Vec<u8> = Vec::new();
        let mut i: usize = 0;
        while i < self.email_len
            invariant
                self.wf(),
                i <= self.email_len,
                out@ == self.email@.subrange(0, i as int),
            decreases self.email_len - i,
        {
            let b = self.email[i];
            out.push(b);
            assert(out@ =~= self.email@.subrange(0, i + 1 as int));
            i = i + 1;
        }
        out
    }

    /// Store a new email. Fails, changing nothing, when the text is longer
    /// than its on-disk width; otherwise copies the bytes into the buffer,
    /// zero-pads the remainder, and records the length.
    pub fn set_email(&mut self, new_email: &Vec<u8>) -> (ok: bool)
        requires
            old(self).wf(),
        ensures
            final(self).wf(),
            ok <==> new_email@.len() <= EMAIL_SIZE,
            ok ==> final(self)@ == (RowAbs { email: new_email@, ..old(self)@ }),
            !ok ==> *final(self) == *old(self),
    {
        if new_email.len() > EMAIL_SIZE {
            return false;
        }
        let ghost prev = *old(self);
        let n = new_email.len();
        let mut i: usize = 0;
        while i < EMAIL_SIZE
            invariant
                n == new_email@.len() <= EMAIL_SIZE,
                i <= EMAIL_SIZE,
                self.email@.len() == EMAIL_SIZE,
                forall|j: int| 0 <= j < i && j < n ==> self.email@[j] == new_email@[j],
                forall|j: int| n <= j < i ==> self.email@[j] == 0u8,
                forall|j: int| i <= j < EMAIL_SIZE ==> self.email@[j] == prev.email@[j],
                self.id == prev.id,
                self.username == prev.username,
                self.username_len == prev.username_len,
                self.email_len == prev.email_len,
                prev.wf(),
            decreases EMAIL_SIZE - i,
        {
            if i < n {
                let b = new_email[i];
                self.email.set(i, b);
            } else {
                self.email.set(i, 0u8);
            }
            i = i + 1;
        }
        self.email_len = n;
        assert(self@.email =~= new_email@);
        assert(self@.username =~= prev@.username);
        true
    }

    /// An independent copy of this row: same id, same buffers, same lengths.
    pub fn duplicate(&self) -> (r: SimpleRow)
        ensures
            r.id == self.id,
            r.username@ == self.username@,
            r.username_len == self.username_len,
            r.email@ == self.email@,
            r.email_len == self.email_len,
            r@ == self@,
            r.wf() <==> self.wf(),
    {
        let username = copy_bytes(&self.username);
        let email = copy_bytes(&self.email);
        let r = SimpleRow {
            id: self.id,
            username,
            username_len: self.username_len,
            email,
            email_len: self.email_len,
        };
        assert(r@ =~= self@);
        r
    }
}

/// An element-for-element copy of a byte vector.
pub fn copy_bytes(v: &Vec<u8>) -> (r: Vec<u8>)
    ensures
        r@ == v@,
{
    let mut out: Vec<u8> = Vec::new();
    let mut i: usize = 0;
    while i < v.len()
        invariant
            i <= v@.len(),
            out@ == v@.subrange(0, i as int),
        decreases v@.len() - i,
    {
        let b = v[i];
        out.push(b);
        assert(out@ =~= v@.subrange(0, i + 1 as int));
        i = i + 1;
    }
    assert(out@ =~= v@);
    out
}

} // verus!
