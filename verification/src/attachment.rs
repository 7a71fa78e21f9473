//! One attached client, from its first message to its end.
use vstd::prelude::*;
use vstd::string::*;

use crate::delivery::LiveAttachment;
use crate::lease::Leases;
use crate::proto::{ClientMessage, ErrorCode, LeaseKind, ServerMessage, ShellState, TerminalSize};
use crate::server::control_error;
use crate::session::{Session, SessionControlError};
use crate::terminal::Terminal;

verus! {

/// How an attachment ended.
#[derive(Debug, Clone, Copy, PartialEq, Eq, Structural)]
pub enum AttachmentExit {
    Detached,
    Disconnected,
    Superseded,
}

/// What the daemon does about a message of an attached client.
pub enum ClientReaction {
    /// Sends an answer.
    Send(ServerMessage),
    /// Sends all output that the client can take.
    SendOutput,
    /// Writes input to the terminal.
    WriteInput(Vec<u8>),
    /// Gives the terminal a size, and the session too once the terminal took it:
    /// see [`Session::resize`].
    ResizeTerminal(TerminalSize),
    /// Sends what became of a lease, and publishes a shell state if there is one.
    Lease { answer: ServerMessage, published: Option<ShellState> },
    /// Sends a farewell and closes the attachment.
    Detach(ServerMessage),
    /// Closes the transport: the client was silent for too long.
    Expire,
}

/// Whether a message shows that its sender is alive.
pub open spec fn shows_life(message: ClientMessage) -> bool {
    match message {
        ClientMessage::Input { .. } => true,
        ClientMessage::Resize { .. } => true,
        ClientMessage::AcquireLease { .. } => true,
        ClientMessage::ReleaseLease { .. } => true,
        ClientMessage::Heartbeat { .. } => true,
        ClientMessage::Detach => true,
        _ => false,
    }
}

pub fn renews_attachment_liveness(message: &ClientMessage) -> (renews: bool)
    ensures
        renews == shows_life(*message),
{
    match message {
        ClientMessage::Input { .. } => true,
        ClientMessage::Resize { .. } => true,
        ClientMessage::AcquireLease { .. } => true,
        ClientMessage::ReleaseLease { .. } => true,
        ClientMessage::Heartbeat { .. } => true,
        ClientMessage::Detach => true,
        _ => false,
    }
}

/// Whether two states of a session differ at most in their leases and in the
/// revision of the shell state.
pub open spec fn same_but_leases(before: Session, after: Session) -> bool {
    &&& after.same_identity(&before)
    &&& after.lifecycle() == before.lifecycle()
    &&& after.observes_processes() == before.observes_processes()
    &&& after.clients().attachments == before.clients().attachments
    &&& after.terminal().journal() == before.terminal().journal()
}

/// What follows when an attachment's hold of a lease may have changed: the
/// client is told, and the shell state is published anew if the client reads
/// command text and began or ceased to own the input lease.
pub open spec fn lease_answered(
    before: Session,
    after: Session,
    lease: LeaseKind,
    attachment_id: Seq<char>,
    leases: Leases,
    visibility_changed: bool,
    reaction: ClientReaction,
) -> bool {
    let shell = before.terminal()@.shell;
    let publishes = visibility_changed && (shell.line is Some || shell.running is Some);
    &&& same_but_leases(before, after)
    &&& after.clients().leases == leases
    &&& after.terminal()@ == if publishes {
        Terminal {
            shell: shell.revised(before.terminal().journal().next()),
            ..before.terminal()@
        }
    } else {
        before.terminal()@
    }
    &&& reaction matches ClientReaction::Lease { answer, published } && {
        &&& answer == (ServerMessage::LeaseStatus {
            lease,
            status: leases.seen_by(attachment_id, lease),
        })
        &&& published is Some <==> publishes
        &&& published matches Some(state) ==> state@ == after.terminal()@.shell
    }
}

/// What an attached client's message does, apart from its effect on the
/// output stream.
pub open spec fn input_processed(
    before: Session,
    after: Session,
    attachment_id: Seq<char>,
    reads_commands: bool,
    message: ClientMessage,
    reaction: ClientReaction,
) -> bool {
    let leases = before.clients().leases;
    match message {
        ClientMessage::Input { data } => {
            &&& after == before
            &&& if leases.input == Some(attachment_id) {
                reaction matches ClientReaction::WriteInput(written) && written == data
            } else {
                reaction matches ClientReaction::Send(answer) && answer.is_error(
                    ErrorCode::InputLeaseRequired,
                    SessionControlError::InputLeaseRequired.text(),
                )
            }
        },
        ClientMessage::Resize { terminal_size } => {
            &&& after == before
            &&& if leases.layout == Some(attachment_id) {
                reaction == ClientReaction::ResizeTerminal(terminal_size)
            } else {
                reaction matches ClientReaction::Send(answer) && answer.is_error(
                    ErrorCode::LayoutLeaseRequired,
                    SessionControlError::LayoutLeaseRequired.text(),
                )
            }
        },
        ClientMessage::AcquireLease { lease } => lease_answered(
            before,
            after,
            lease,
            attachment_id,
            leases.claimed(attachment_id, lease),
            lease == LeaseKind::Input && reads_commands && leases.input != Some(attachment_id)
                && leases.claimed(attachment_id, lease).input == Some(attachment_id),
            reaction,
        ),
        ClientMessage::ReleaseLease { lease } => lease_answered(
            before,
            after,
            lease,
            attachment_id,
            leases.released(attachment_id, lease),
            lease == LeaseKind::Input && reads_commands && leases.input == Some(attachment_id),
            reaction,
        ),
        ClientMessage::Heartbeat { nonce } => {
            &&& after == before
            &&& reaction == ClientReaction::Send(ServerMessage::HeartbeatAck { nonce })
        },
        ClientMessage::Detach => {
            &&& after == before
            &&& reaction == ClientReaction::Detach(ServerMessage::Detached)
        },
        _ => {
            &&& after == before
            &&& reaction matches ClientReaction::Send(answer) && answer.is_error(
                ErrorCode::InvalidRequest,
                "only input, resize, lease control, and detach are valid while attached"@,
            )
        },
    }
}

/// Takes in a message of an attached client that does not confirm output.
pub fn process_attach_input(
    session: &mut Session,
    attachment_id: &str,
    reads_commands: bool,
    message: ClientMessage,
) -> (reaction: ClientReaction)
    requires
        old(session).wf(),
        old(session).terminal()@.shell.revision < u64::MAX,
    ensures
        final(session).wf(),
        input_processed(
            *old(session),
            *final(session),
            attachment_id@,
            reads_commands,
            message,
            reaction,
        ),
{
    match message {
        ClientMessage::Input { data } => match session.authorize_input(attachment_id) {
            Ok(_) => ClientReaction::WriteInput(data),
            Err(error) => ClientReaction::Send(control_error(&error)),
        },
        ClientMessage::Resize { terminal_size } => match session.authorize_resize(attachment_id) {
            Ok(_) => ClientReaction::ResizeTerminal(terminal_size),
            Err(error) => ClientReaction::Send(control_error(&error)),
        },
        ClientMessage::AcquireLease { lease } => {
            let ghost before = session.clients();
            let owned_input = session.owns_input_lease(attachment_id);
            let status = session.acquire_lease(attachment_id, lease);
            let published = if lease == LeaseKind::Input && reads_commands && !owned_input
                && status.owned_by_client {
                session.refresh_shell_state_for_visibility()
            } else {
                None
            };
            ClientReaction::Lease {
                answer: ServerMessage::LeaseStatus { lease, status },
                published,
            }
        },
        ClientMessage::ReleaseLease { lease } => {
            let owned_input = session.owns_input_lease(attachment_id);
            let status = session.release_lease(attachment_id, lease);
            let published = if lease == LeaseKind::Input && reads_commands && owned_input {
                session.refresh_shell_state_for_visibility()
            } else {
                None
            };
            ClientReaction::Lease {
                answer: ServerMessage::LeaseStatus { lease, status },
                published,
            }
        },
        ClientMessage::Heartbeat { nonce } => ClientReaction::Send(
            ServerMessage::HeartbeatAck { nonce },
        ),
        ClientMessage::Detach => ClientReaction::Detach(ServerMessage::Detached),
        _ => ClientReaction::Send(
            ServerMessage::Error {
                code: ErrorCode::InvalidRequest,
                message:
                    "only input, resize, lease control, and detach are valid while attached".to_owned(),
            },
        ),
    }
}

/// An attached client, as the daemon drives it. Times are in milliseconds.
pub struct AttachmentDriver {
    pub attachment: LiveAttachment,
    pub attachment_id: String,
    pub attachment_liveness_timeout: u64,
    /// When the transport expires.
    pub deadline: u64,
}

impl AttachmentDriver {
    /// Takes in a message of the client.
    ///
    /// Detaching always works. A client whose deadline has passed is not heard
    /// any more. Confirmations and signs of life push the deadline back.
    pub fn process_client_message(
        &mut self,
        session: &mut Session,
        message: ClientMessage,
        now: u64,
    ) -> (reaction: ClientReaction)
        requires
            old(self).attachment.wf(),
            old(session).wf(),
            old(session).terminal()@.shell.revision < u64::MAX,
            now + old(self).attachment_liveness_timeout <= u64::MAX,
        ensures
            final(self).attachment.wf(),
            final(session).wf(),
            final(self).attachment_id == old(self).attachment_id,
            final(self).attachment_liveness_timeout == old(self).attachment_liveness_timeout,
            ({
                let stream = old(self).attachment@;
                let renewed = (now + old(self).attachment_liveness_timeout) as u64;
                if message is Detach {
                    &&& reaction == ClientReaction::Detach(ServerMessage::Detached)
                    &&& *final(session) == *old(session)
                    &&& final(self).attachment@ == stream
                    &&& final(self).deadline == old(self).deadline
                } else if now >= old(self).deadline {
                    &&& reaction == ClientReaction::Expire
                    &&& *final(session) == *old(session)
                    &&& final(self).attachment@ == stream
                    &&& final(self).deadline == old(self).deadline
                } else if message is PresentationApplied {
                    let sequence = message->PresentationApplied_sequence;
                    &&& *final(session) == *old(session)
                    &&& match stream.progress_problem(sequence) {
                        Some(problem) => {
                            &&& reaction matches ClientReaction::Send(answer) && answer.is_error(
                                ErrorCode::InvalidRequest,
                                problem,
                            )
                            &&& final(self).attachment@ == stream
                            &&& final(self).deadline == old(self).deadline
                        },
                        None => {
                            &&& reaction == ClientReaction::SendOutput
                            &&& final(self).attachment@ == stream.confirmed(sequence)
                            &&& final(self).deadline == renewed
                        },
                    }
                } else {
                    &&& input_processed(
                        *old(session),
                        *final(session),
                        old(self).attachment_id@,
                        stream.command_line || stream.running_command,
                        message,
                        reaction,
                    )
                    &&& final(self).attachment@ == stream
                    &&& final(self).deadline == if shows_life(message) {
                        renewed
                    } else {
                        old(self).deadline
                    }
                }
            }),
    {
        if let ClientMessage::Detach = message {
            return ClientReaction::Detach(ServerMessage::Detached);
        }
        if now >= self.deadline {
            return ClientReaction::Expire;
        }
        if let ClientMessage::PresentationApplied { sequence } = message {
            return match self.attachment.accept_presentation_progress(sequence) {
                Ok(_) => {
                    self.deadline = now + self.attachment_liveness_timeout;
                    ClientReaction::SendOutput
                },
                Err(problem) => ClientReaction::Send(
                    ServerMessage::Error {
                        code: ErrorCode::InvalidRequest,
                        message: problem.to_owned(),
                    },
                ),
            };
        }
        if renews_attachment_liveness(&message) {
            self.deadline = now + self.attachment_liveness_timeout;
        }
        let reads_commands = self.attachment.requests_command_text();
        process_attach_input(session, self.attachment_id.as_str(), reads_commands, message)
    }
}

/// Settles an attachment whose transport has ended. Returns whether it waits
/// for its client to come back; then it expires after the reconnect grace: see
/// [`Session::expire_attachment`].
///
/// `preserve` says whether the client knows of the attachment: a new one that
/// was never answered is not kept.
pub fn finish_attachment(
    session: &mut Session,
    attachment_token: &str,
    generation: u64,
    preserve: bool,
    exit: AttachmentExit,
) -> (waits: bool)
    requires
        old(session).wf(),
    ensures
        final(session).wf(),
        final(session).same_identity(old(session)),
        final(session).terminal() == old(session).terminal(),
        final(session).lifecycle() == old(session).lifecycle(),
        final(session).observes_processes() == old(session).observes_processes(),
        if exit == AttachmentExit::Detached || !preserve {
            &&& !waits
            &&& final(session).clients() == old(session).clients().closed(
                attachment_token@,
                generation,
            )
        } else {
            &&& waits == old(session).clients().is_connected(attachment_token@, generation)
            &&& final(session).clients() == old(session).clients().suspended(
                attachment_token@,
                generation,
            )
        },
{
    if exit == AttachmentExit::Detached || !preserve {
        session.close_attachment(attachment_token, generation);
        return false;
    }
    session.suspend_attachment(attachment_token, generation)
}

/// A client without the input lease never writes to the terminal, and one
/// without the layout lease never changes its size, whatever it sends.
pub proof fn only_owners_control_the_terminal(
    before: Session,
    after: Session,
    attachment_id: Seq<char>,
    reads_commands: bool,
    message: ClientMessage,
    reaction: ClientReaction,
)
    requires
        input_processed(before, after, attachment_id, reads_commands, message, reaction),
    ensures
        reaction is WriteInput ==> before.clients().leases.input == Some(attachment_id),
        reaction is ResizeTerminal ==> before.clients().leases.layout == Some(attachment_id),
        after.terminal()@.display == before.terminal()@.display,
        after.terminal().journal() == before.terminal().journal(),
{
}

/// No message of one attachment takes a lease away from another.
pub proof fn messages_never_steal_leases(
    before: Session,
    after: Session,
    attachment_id: Seq<char>,
    reads_commands: bool,
    message: ClientMessage,
    reaction: ClientReaction,
    other: Seq<char>,
)
    requires
        input_processed(before, after, attachment_id, reads_commands, message, reaction),
        other != attachment_id,
    ensures
        before.clients().leases.input == Some(other) ==> after.clients().leases.input == Some(
            other,
        ),
        before.clients().leases.layout == Some(other) ==> after.clients().leases.layout == Some(
            other,
        ),
{
}

/// A client that reads command text is sent the shell state anew when it gets
/// or gives up the input lease, as far as there is text; nobody else is. What
/// it is told of the lease is what holds afterwards.
pub proof fn command_text_follows_the_input_lease(
    before: Session,
    after: Session,
    attachment_id: Seq<char>,
    reads_commands: bool,
    message: ClientMessage,
    reaction: ClientReaction,
)
    requires
        input_processed(before, after, attachment_id, reads_commands, message, reaction),
        before.terminal()@.shell.revision < u64::MAX,
    ensures
        reaction matches ClientReaction::Lease { answer, published } ==> {
            let owned = before.clients().leases.input == Some(attachment_id);
            let owns = after.clients().leases.input == Some(attachment_id);
            let text = before.terminal()@.shell.line is Some || before.terminal()@.shell.running
                is Some;
            &&& published is Some <==> reads_commands && owned != owns && text
            &&& published matches Some(state) ==> state@.revision
                == before.terminal()@.shell.revision + 1 && state@.line
                == before.terminal()@.shell.line && state@.running
                == before.terminal()@.shell.running
            &&& answer matches ServerMessage::LeaseStatus { lease, status } && {
                &&& status.held <==> after.clients().leases.owner(lease) is Some
                &&& status.owned_by_client <==> after.clients().leases.owner(lease) == Some(
                    attachment_id,
                )
            }
        },
        message is AcquireLease || message is ReleaseLease <==> reaction is Lease,
        message matches ClientMessage::AcquireLease { lease } ==> (before.clients().leases.owner(
            lease,
        ) is None ==> after.clients().leases.owner(lease) == Some(attachment_id)),
        message matches ClientMessage::ReleaseLease { lease } ==> after.clients().leases.owner(
            lease,
        ) != Some(attachment_id),
        message matches ClientMessage::Heartbeat { nonce } ==> reaction == ClientReaction::Send(
            ServerMessage::HeartbeatAck { nonce },
        ),
        message is Detach <==> reaction is Detach,
        message matches ClientMessage::Input { data } ==> (before.clients().leases.input == Some(
            attachment_id,
        ) ==> reaction == ClientReaction::WriteInput(data)),
        message matches ClientMessage::Resize { terminal_size } ==> (
        before.clients().leases.layout == Some(attachment_id) ==> reaction
            == ClientReaction::ResizeTerminal(terminal_size)),
{
}

/// Every message that an attached client may send shows that it is alive, and
/// no other does.
pub proof fn valid_messages_show_life(
    before: Session,
    after: Session,
    attachment_id: Seq<char>,
    reads_commands: bool,
    message: ClientMessage,
    reaction: ClientReaction,
)
    requires
        input_processed(before, after, attachment_id, reads_commands, message, reaction),
    ensures
        !shows_life(message) <==> (reaction matches ClientReaction::Send(
            ServerMessage::Error { code, .. },
        ) && code == ErrorCode::InvalidRequest),
{
}

} // verus!
