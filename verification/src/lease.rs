//! Ownership of the input and layout of a terminal.
use vstd::prelude::*;

use crate::proto::{LeaseKind, LeaseStatus};
use crate::text::{is_text, optional};

verus! {

/// The input and layout leases held by one attachment after an operation.
#[derive(Debug, Clone, Copy, PartialEq, Eq, Structural)]
pub struct AttachmentLeases {
    pub input: LeaseStatus,
    pub layout: LeaseStatus,
}

/// Portable, attachment-scoped ownership policy for a terminal session.
///
/// The daemon owns synchronization around this state. The registry itself is
/// intentionally independent of PTYs and transports, so Unix sockets, named
/// pipes, and a future remote gateway share the same ownership rules.
#[derive(Debug)]
pub struct AttachmentLeaseRegistry {
    input_owner: Option<String>,
    layout_owner: Option<String>,
}

/// Who owns each lease.
#[verifier::ext_equal]
pub struct Leases {
    pub input: Option<Seq<char>>,
    pub layout: Option<Seq<char>>,
}

impl Leases {
    pub open spec fn none() -> Leases {
        Leases { input: None, layout: None }
    }

    pub open spec fn owner(self, lease: LeaseKind) -> Option<Seq<char>> {
        match lease {
            LeaseKind::Input => self.input,
            LeaseKind::Layout => self.layout,
        }
    }

    pub open spec fn with_owner(self, lease: LeaseKind, owner: Option<Seq<char>>) -> Leases {
        match lease {
            LeaseKind::Input => Leases { input: owner, ..self },
            LeaseKind::Layout => Leases { layout: owner, ..self },
        }
    }

    /// The lease is given to `attachment` if nobody holds it.
    pub open spec fn claimed(self, attachment: Seq<char>, lease: LeaseKind) -> Leases {
        if self.owner(lease) is None {
            self.with_owner(lease, Some(attachment))
        } else {
            self
        }
    }

    /// The lease is given up if `attachment` holds it.
    pub open spec fn released(self, attachment: Seq<char>, lease: LeaseKind) -> Leases {
        if self.owner(lease) == Some(attachment) {
            self.with_owner(lease, None)
        } else {
            self
        }
    }

    /// `attachment` gives up whatever it holds.
    pub open spec fn without(self, attachment: Seq<char>) -> Leases {
        self.released(attachment, LeaseKind::Input).released(attachment, LeaseKind::Layout)
    }

    /// The leases after a new attachment asked for some of them.
    pub open spec fn requested(self, attachment: Seq<char>, input: bool, layout: bool) -> Leases {
        let first = if input {
            self.claimed(attachment, LeaseKind::Input)
        } else {
            self
        };
        if layout {
            first.claimed(attachment, LeaseKind::Layout)
        } else {
            first
        }
    }

    /// What `attachment` sees of a lease.
    pub open spec fn seen_by(self, attachment: Seq<char>, lease: LeaseKind) -> LeaseStatus {
        LeaseStatus {
            held: self.owner(lease) is Some,
            owned_by_client: self.owner(lease) == Some(attachment),
        }
    }

    pub open spec fn both_seen_by(self, attachment: Seq<char>) -> AttachmentLeases {
        AttachmentLeases {
            input: self.seen_by(attachment, LeaseKind::Input),
            layout: self.seen_by(attachment, LeaseKind::Layout),
        }
    }
}

impl View for AttachmentLeaseRegistry {
    type V = Leases;

    closed spec fn view(&self) -> Leases {
        Leases { input: optional(self.input_owner), layout: optional(self.layout_owner) }
    }
}

impl Default for AttachmentLeaseRegistry {
    fn default() -> (registry: Self)
        ensures
            registry@ == Leases::none(),
    {
        AttachmentLeaseRegistry { input_owner: None, layout_owner: None }
    }
}

impl AttachmentLeaseRegistry {
    /// Claims each requested unheld lease without taking one from another
    /// attachment.
    pub fn request_initial(
        &mut self,
        attachment_id: &str,
        request_input_lease: bool,
        request_layout_lease: bool,
    ) -> (leases: AttachmentLeases)
        ensures
            final(self)@ == old(self)@.requested(
                attachment_id@,
                request_input_lease,
                request_layout_lease,
            ),
            leases == final(self)@.both_seen_by(attachment_id@),
    {
        if request_input_lease && self.input_owner.is_none() {
            self.input_owner = Some(attachment_id.to_owned());
        }
        if request_layout_lease && self.layout_owner.is_none() {
            self.layout_owner = Some(attachment_id.to_owned());
        }
        self.attachment_leases(attachment_id)
    }

    /// Claims an unheld lease, or returns its existing state without stealing it.
    pub fn acquire(&mut self, attachment_id: &str, lease: LeaseKind) -> (status: LeaseStatus)
        ensures
            final(self)@ == old(self)@.claimed(attachment_id@, lease),
            status == final(self)@.seen_by(attachment_id@, lease),
    {
        match lease {
            LeaseKind::Input => {
                if self.input_owner.is_none() {
                    self.input_owner = Some(attachment_id.to_owned());
                }
            },
            LeaseKind::Layout => {
                if self.layout_owner.is_none() {
                    self.layout_owner = Some(attachment_id.to_owned());
                }
            },
        }
        self.status(attachment_id, lease)
    }

    /// Releases `lease` only when it belongs to `attachment_id`.
    pub fn release(&mut self, attachment_id: &str, lease: LeaseKind) -> (status: LeaseStatus)
        ensures
            final(self)@ == old(self)@.released(attachment_id@, lease),
            status == final(self)@.seen_by(attachment_id@, lease),
    {
        match lease {
            LeaseKind::Input => {
                if is_text(&self.input_owner, attachment_id) {
                    self.input_owner = None;
                }
            },
            LeaseKind::Layout => {
                if is_text(&self.layout_owner, attachment_id) {
                    self.layout_owner = None;
                }
            },
        }
        self.status(attachment_id, lease)
    }

    /// Releases every lease held by a detached attachment.
    pub fn release_attachment(&mut self, attachment_id: &str)
        ensures
            final(self)@ == old(self)@.without(attachment_id@),
    {
        if is_text(&self.input_owner, attachment_id) {
            self.input_owner = None;
        }
        if is_text(&self.layout_owner, attachment_id) {
            self.layout_owner = None;
        }
    }

    /// Returns lease state from the perspective of `attachment_id`.
    pub fn status(&self, attachment_id: &str, lease: LeaseKind) -> (status: LeaseStatus)
        ensures
            status == self@.seen_by(attachment_id@, lease),
    {
        let owner = match lease {
            LeaseKind::Input => &self.input_owner,
            LeaseKind::Layout => &self.layout_owner,
        };
        LeaseStatus { held: owner.is_some(), owned_by_client: is_text(owner, attachment_id) }
    }

    pub fn attachment_leases(&self, attachment_id: &str) -> (leases: AttachmentLeases)
        ensures
            leases == self@.both_seen_by(attachment_id@),
    {
        AttachmentLeases {
            input: self.status(attachment_id, LeaseKind::Input),
            layout: self.status(attachment_id, LeaseKind::Layout),
        }
    }
}

/// Asking for a lease that another attachment holds changes nothing: a lease
/// passes on only after its owner gave it up.
pub proof fn leases_do_not_transfer_implicitly(
    leases: Leases,
    owner: Seq<char>,
    other: Seq<char>,
    lease: LeaseKind,
    input: bool,
    layout: bool,
)
    requires
        leases.owner(lease) == Some(owner),
        other != owner,
    ensures
        leases.claimed(other, lease) == leases,
        leases.released(other, lease) == leases,
        leases.without(other).owner(lease) == Some(owner),
        leases.requested(other, input, layout).owner(lease) == Some(owner),
        !leases.seen_by(other, lease).owned_by_client,
        leases.released(owner, lease).claimed(other, lease).owner(lease) == Some(other),
{
}

/// A detached attachment owns nothing, and only what it owned became free.
pub proof fn release_frees_only_what_was_owned(
    leases: Leases,
    attachment: Seq<char>,
    lease: LeaseKind,
)
    ensures
        leases.without(attachment).owner(lease) != Some(attachment),
        leases.owner(lease) != Some(attachment) ==> leases.without(attachment).owner(lease)
            == leases.owner(lease),
        leases.owner(lease) == Some(attachment) ==> leases.without(attachment).owner(lease) is None,
{
}

/// At most one attachment sees a lease as its own.
pub proof fn a_lease_has_one_owner(leases: Leases, a: Seq<char>, b: Seq<char>, lease: LeaseKind)
    requires
        leases.seen_by(a, lease).owned_by_client,
        leases.seen_by(b, lease).owned_by_client,
    ensures
        a == b,
{
}

/// A new attachment gets each lease that it asked for and nobody held, and
/// changes nothing about the others. The two leases are apart: taking one or
/// giving it up never moves the other.
pub proof fn a_request_takes_only_free_leases(
    leases: Leases,
    attachment: Seq<char>,
    input: bool,
    layout: bool,
    lease: LeaseKind,
    other: LeaseKind,
)
    ensures
        ({
            let asked = match lease {
                LeaseKind::Input => input,
                LeaseKind::Layout => layout,
            };
            leases.requested(attachment, input, layout).owner(lease) == if asked && leases.owner(
                lease,
            ) is None {
                Some(attachment)
            } else {
                leases.owner(lease)
            }
        }),
        leases.owner(lease) is None ==> leases.claimed(attachment, lease).seen_by(
            attachment,
            lease,
        ).owned_by_client,
        leases.seen_by(attachment, lease).held <==> leases.owner(lease) is Some,
        other != lease ==> {
            &&& leases.claimed(attachment, lease).owner(other) == leases.owner(other)
            &&& leases.released(attachment, lease).owner(other) == leases.owner(other)
        },
        leases.both_seen_by(attachment).input == leases.seen_by(attachment, LeaseKind::Input),
        leases.both_seen_by(attachment).layout == leases.seen_by(attachment, LeaseKind::Layout),
{
}

} // verus!
