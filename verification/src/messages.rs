//! The visitor contact log: append-only. Messages are recorded with the
//! sender's address of origin and read back whole; no update or delete path
//! exists.

use vstd::prelude::*;

verus! {

/// The contact form a visitor submits; the origin address is the
/// transport's to add.
pub struct FormData {
    pub name: String,
    pub email: String,
    pub message: String,
}

/// The mathematical value of one logged message.
pub struct ContactMessageView {
    pub name: Seq<char>,
    pub email: Seq<char>,
    pub message: Seq<char>,
    pub ip_address: Seq<char>,
}

/// One logged message.
pub struct ContactMessage {
    pub name: String,
    pub email: String,
    pub message: String,
    pub ip_address: String,
}

impl View for ContactMessage {
    type V = ContactMessageView;

    open spec fn view(&self) -> ContactMessageView {
        ContactMessageView {
            name: self.name@,
            email: self.email@,
            message: self.message@,
            ip_address: self.ip_address@,
        }
    }
}

impl ContactMessage {
    /// A field-for-field copy of this message.
    pub fn duplicate(&self) -> (r: ContactMessage)
        ensures
            r@ == self@,
    {
        ContactMessage {
            name: self.name.clone(),
            email: self.email.clone(),
            message: self.message.clone(),
            ip_address: self.ip_address.clone(),
        }
    }
}

/// The message log, in arrival order.
pub struct MessageLog {
    rows: Vec<ContactMessage>,
}

impl View for MessageLog {
    type V = Seq<ContactMessageView>;

    closed spec fn view(&self) -> Seq<ContactMessageView> {
        self.rows@.map_values(|m: ContactMessage| m@)
    }
}

impl MessageLog {
    /// An empty log.
    pub fn new() -> (l: MessageLog)
        ensures
            l@.len() == 0,
    {
        let l = MessageLog { rows: Vec::new() };
        proof {
            assert(l@ =~= Seq::<ContactMessageView>::empty());
        }
        l
    }

    /// Appends one message; nothing already logged moves or changes.
    pub fn add(&mut self, name: String, email: String, message: String, ip_address: String)
        ensures
            final(self)@ == old(self)@.push(
                ContactMessageView {
                    name: name@,
                    email: email@,
                    message: message@,
                    ip_address: ip_address@,
                },
            ),
    {
        let ghost prev = self.rows@;
        let m = ContactMessage { name, email, message, ip_address };
        self.rows.push(m);
        proof {
            assert(self@ =~= prev.map_values(|x: ContactMessage| x@).push(m@));
        }
    }

    /// Every logged message, in arrival order.
    pub fn entries(&self) -> (r: Vec<ContactMessage>)
        ensures
            r@.map_values(|m: ContactMessage| m@) == self@,
    {
        let n = self.rows.len();
        let mut out: Vec<ContactMessage> = Vec::new();
        let mut i: usize = 0;
        while i < n
            invariant
                0 <= i <= n,
                n == self@.len(),
                out@.len() == i,
                forall|k: int| 0 <= k < i ==> (#[trigger] out@[k]@) == self@[k],
            decreases n - i,
        {
            let ghost prev = out@;
            let m = self.rows[i].duplicate();
            out.push(m);
            proof {
                assert forall|k: int| 0 <= k < i + 1 implies (#[trigger] out@[k]@) == self@[k] by {
                    assert(self@[k] == self.rows@[k]@);
                    if k < i as int {
                        assert(out@[k] == prev[k]);
                    }
                }
            }
            i = i + 1;
        }
        proof {
            assert(out@.map_values(|m: ContactMessage| m@) =~= self@);
        }
        out
    }

    /// How many messages the log holds.
    pub fn len(&self) -> (n: usize)
        ensures
            n == self@.len(),
    {
        self.rows.len()
    }
}

} // verus!
