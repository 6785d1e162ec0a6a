use vstd::prelude::*;

verus! {

/// Decoding outcome that is not a decoded frame: `Incomplete` means more
/// bytes must arrive before anything can be said; `Malformed` means the bytes
/// received violate the protocol and the frame is discarded.
#[derive(Clone, Copy, Debug, PartialEq, Eq, Structural)]
pub enum CodecError {
    Incomplete,
    Malformed,
}

/// Failure of marshalling: the message holds a value whose encoding does not
/// fit the bounded length fields of the wire format.
#[derive(Clone, Copy, Debug, PartialEq, Eq, Structural)]
pub enum MarshalError {
    TooLarge,
}

/// Failure of an append- or read-mode cursor operation against the wrong
/// shape: programmer error, reported rather than coerced.
#[derive(Clone, Copy, Debug, PartialEq, Eq, Structural)]
pub enum IterError {
    TypeMismatch,
    Closed,
    Unsupported,
}

/// Failure of a connection operation.
#[derive(Clone, Copy, Debug, PartialEq, Eq, Structural)]
pub enum ConnError {
    Disconnected,
    SerialSpaceExhausted,
    Fatal,
}

/// The caller-visible error record of the bus API: an error name, a
/// human-readable text (both as UTF-8 bytes), and whether the record is set
/// at all.
#[derive(Debug, PartialEq, Eq)]
pub struct DBusError {
    pub name: Vec<u8>,
    pub error: Vec<u8>,
    pub is_set: bool,
}

impl DBusError {
    /// A fresh, unset error record.
    pub fn new() -> (r: DBusError)
        ensures
            !r.is_set,
            r.name@.len() == 0,
            r.error@.len() == 0,
    {
        DBusError { name: Vec::new(), error: Vec::new(), is_set: false }
    }

    /// Clears the record back to the unset state.
    pub fn clear(&mut self)
        ensures
            !final(self).is_set,
            final(self).error@.len() == 0,
            final(self).name@ == old(self).name@,
    {
        self.error = Vec::new();
        self.is_set = false;
    }

    pub fn error_is_set(&self) -> (r: bool)
        ensures
            r == self.is_set,
    {
        self.is_set
    }

    /// Whether the record is set and carries exactly this name.
    pub fn has_name(&self, name: &[u8]) -> (r: bool)
        ensures
            r == (self.is_set && self.name@ == name@),
    {
        if !self.is_set {
            return false;
        }
        if self.name.len() != name.len() {
            proof {
                assert(self.name@.len() != name@.len());
            }
            return false;
        }
        let mut i: usize = 0;
        while i < name.len()
            invariant
                self.name@.len() == name@.len(),
                i <= name@.len(),
                forall|j: int| 0 <= j < i ==> self.name@[j] == name@[j],
            decreases name@.len() - i,
        {
            if self.name[i] != name[i] {
                return false;
            }
            i = i + 1;
        }
        proof {
            assert(self.name@ =~= name@);
        }
        true
    }
}

} // verus!
