//! The bridge's single, swappable connection to the device.

use vstd::prelude::*;

verus! {

/// An open channel to the device that accepts bytes.
pub trait DeviceLink {
    /// Writes all of `bytes` to the device; `true` where it succeeded.
    fn send(&mut self, bytes: &[u8]) -> bool;
}

/// Why a command could not be written to the device.
#[derive(PartialEq, Eq, Structural, Clone, Copy, Debug)]
pub enum TransportError {
    /// No connection is held.
    NotAttached,
    /// The connection refused the bytes.
    WriteFailed,
}

/// One attached connection: the endpoint's name, the number of the
/// attachment and the link itself.
pub struct Attachment<C> {
    pub name: String,
    pub generation: u64,
    pub link: C,
}

/// `Unattached` or `Attached(connection)`; attaching replaces the previous
/// connection and hands it back to be closed.
pub struct Transport<C> {
    attached: Option<Attachment<C>>,
    generation: u64,
}

/// The line that carries `command` to the device.
pub open spec fn command_frame(command: Seq<char>) -> Seq<char> {
    command.push('\n')
}

/// The number of the attachment that follows attachment `g`.
pub open spec fn next_generation(g: u64) -> u64 {
    if g == u64::MAX {
        0
    } else {
        (g + 1) as u64
    }
}

/// The text sent to the device for a pass-through command.
pub fn command_line(command: &str) -> (r: String)
    ensures
        r@ == command_frame(command@),
{
    proof {
        reveal_strlit("\n");
    }
    String::from_str(command).concat("\n")
}

impl<C> Transport<C> {
    /// The name and number of the held attachment, if any.
    pub closed spec fn link_state(&self) -> Option<(Seq<char>, u64)> {
        match self.attached {
            Some(a) => Some((a.name@, a.generation)),
            None => None,
        }
    }

    /// The held connection, if any.
    pub closed spec fn link(&self) -> Option<C> {
        match self.attached {
            Some(a) => Some(a.link),
            None => None,
        }
    }

    /// The number of the latest attachment (zero before the first).
    pub closed spec fn generation(&self) -> u64 {
        self.generation
    }

    /// An unattached handle.
    pub fn new() -> (r: Self)
        ensures
            r.link_state() is None,
            r.link() is None,
            r.generation() == 0,
    {
        Transport { attached: None, generation: 0 }
    }

    /// Whether a connection is held.
    pub fn is_attached(&self) -> (r: bool)
        ensures
            r == self.link_state() is Some,
    {
        self.attached.is_some()
    }

    /// The name of the attached endpoint, if any.
    pub fn attached_name(&self) -> (r: Option<String>)
        ensures
            r is Some <==> self.link_state() is Some,
            r matches Some(n) ==> n@ == (self.link_state()->0).0,
    {
        match &self.attached {
            Some(a) => Some(a.name.clone()),
            None => None,
        }
    }

    /// The number of the held attachment, if any.
    pub fn attached_generation(&self) -> (r: Option<u64>)
        ensures
            r is Some <==> self.link_state() is Some,
            r matches Some(g) ==> g == (self.link_state()->0).1,
    {
        match &self.attached {
            Some(a) => Some(a.generation),
            None => None,
        }
    }

    /// Holds `link`, opened to `name`, in place of any previous connection,
    /// which is returned so that the caller closes it.
    pub fn attach(&mut self, name: String, link: C) -> (prev: Option<C>)
        ensures
            prev == old(self).link(),
            final(self).link() == Some(link),
            final(self).generation() == next_generation(old(self).generation()),
            final(self).link_state() == Some((name@, final(self).generation())),
    {
        let g = if self.generation == u64::MAX {
            0
        } else {
            self.generation + 1
        };
        self.generation = g;
        let old_att = self.attached.take();
        self.attached = Some(Attachment { name, generation: g, link });
        match old_att {
            Some(a) => Some(a.link),
            None => None,
        }
    }

    /// Drops the held connection, returning it so that the caller closes it.
    pub fn detach(&mut self) -> (prev: Option<C>)
        ensures
            prev == old(self).link(),
            final(self).link() is None,
            final(self).link_state() is None,
            final(self).generation() == old(self).generation(),
    {
        match self.attached.take() {
            Some(a) => Some(a.link),
            None => None,
        }
    }

    /// Drops the held connection only where it is attachment `generation`;
    /// a reader whose connection closed calls this, and leaves a newer
    /// attachment alone.
    pub fn release(&mut self, generation: u64) -> (prev: Option<C>)
        ensures
            old(self).link_state() matches Some(s) && s.1 == generation ==> {
                &&& prev == old(self).link()
                &&& final(self).link_state() is None
                &&& final(self).link() is None
            },
            !(old(self).link_state() matches Some(s) && s.1 == generation) ==> {
                &&& prev is None
                &&& final(self).link_state() == old(self).link_state()
                &&& final(self).link() == old(self).link()
            },
            final(self).generation() == old(self).generation(),
    {
        let owns = match &self.attached {
            Some(a) => a.generation == generation,
            None => false,
        };
        if owns {
            self.detach()
        } else {
            None
        }
    }
}

impl<C: DeviceLink> Transport<C> {
    /// Sends `command` and a line end to the held connection. Unattached:
    /// fails with `NotAttached` and changes nothing. A failed write leaves
    /// the connection held.
    pub fn write_command(&mut self, command: &str) -> (r: Result<(), TransportError>)
        ensures
            old(self).link_state() is None ==> {
                &&& r == Err::<(), TransportError>(TransportError::NotAttached)
                &&& final(self).link() == old(self).link()
            },
            old(self).link_state() is Some ==> (r is Ok || r == Err::<(), TransportError>(
                TransportError::WriteFailed,
            )),
            final(self).link_state() == old(self).link_state(),
            final(self).generation() == old(self).generation(),
    {
        match self.attached.take() {
            None => Err(TransportError::NotAttached),
            Some(a) => {
                let Attachment { name, generation, mut link } = a;
                let line = command_line(command);
                let ok = link.send(line.as_str().as_bytes());
                self.attached = Some(Attachment { name, generation, link });
                if ok {
                    Ok(())
                } else {
                    Err(TransportError::WriteFailed)
                }
            },
        }
    }
}

/// Attaching while attached leaves exactly one connection held, the newer,
/// and hands back the older one to be closed.
pub proof fn lemma_attach_exclusive<C>(
    t0: Transport<C>,
    t1: Transport<C>,
    t2: Transport<C>,
    a: Seq<char>,
    b: Seq<char>,
    link_a: C,
    link_b: C,
    prev1: Option<C>,
    prev2: Option<C>,
)
    requires
        prev1 == t0.link(),
        t1.link() == Some(link_a),
        t1.generation() == next_generation(t0.generation()),
        t1.link_state() == Some((a, t1.generation())),
        prev2 == t1.link(),
        t2.link() == Some(link_b),
        t2.generation() == next_generation(t1.generation()),
        t2.link_state() == Some((b, t2.generation())),
    ensures
        prev2 == Some(link_a),
        t2.link() == Some(link_b),
        t2.link_state() matches Some(s) && s.0 == b && s.1 != t1.generation(),
{
}

} // verus!
