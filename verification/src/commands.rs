//! Control commands of the text channel.
//!
//! The relay and its clients exchange a small command set as JSON over the
//! transport's text frames, independent of the binary peer-payload channel.
//! The wire encoding is the one the relay's own command type defines; this
//! module keeps that codec behind two trusted wrappers and gives the rest of
//! the crate a plain command value to work with.

use vstd::prelude::*;

verus! {

/// One out-of-band instruction of the text channel.
pub enum Command {
    /// Keep the shared connection alive; sent outbound only from this side.
    Ping,
    /// One logical peer link is to be (or has been) torn down.
    Disconnect { to: Vec<u8>, from: Vec<u8> },
}

/// Mathematical model of a command.
#[verifier::ext_equal]
pub enum CommandView {
    Ping,
    Disconnect { to: Seq<u8>, from: Seq<u8> },
}

impl View for Command {
    type V = CommandView;

    open spec fn view(&self) -> CommandView {
        match self {
            Command::Ping => CommandView::Ping,
            Command::Disconnect { to, from } => CommandView::Disconnect {
                to: to@,
                from: from@,
            },
        }
    }
}

/// The text that the relay's command codec produces for a command.
pub uninterp spec fn command_text(c: CommandView) -> Seq<char>;

/// The command that the relay's command codec reads out of a text frame,
/// where the text parses as one.
pub uninterp spec fn parsed_command(s: Seq<char>) -> Option<CommandView>;

/// Relies on serde_json::to_string over ln_websocket_proxy's command enum:
/// the derived serialization of that enum (a variant tag and two byte
/// arrays) never fails, the text depends on the command alone, and the text
/// parses back to the same command.
#[verifier::external_body]
pub fn encode_command(c: &Command) -> (r: String)
    ensures
        r@ == command_text(c@),
        parsed_command(r@) == Some(c@),
{
    let wire = match c {
        Command::Ping => ln_websocket_proxy::MutinyProxyCommand::Ping,
        Command::Disconnect { to, from } => ln_websocket_proxy::MutinyProxyCommand::Disconnect {
            to: to.clone(),
            from: from.clone(),
        },
    };
    serde_json::to_string(&wire).unwrap()
}

/// Relies on serde_json::from_str over ln_websocket_proxy's command enum:
/// whether a text parses, and to which command, depends on the text alone.
#[verifier::external_body]
pub fn decode_command(s: &str) -> (r: Option<Command>)
    ensures
        r is Some <==> parsed_command(s@) is Some,
        r matches Some(c) ==> parsed_command(s@) == Some(c@),
{
    match serde_json::from_str::<ln_websocket_proxy::MutinyProxyCommand>(s) {
        Ok(ln_websocket_proxy::MutinyProxyCommand::Ping) => Some(Command::Ping),
        Ok(ln_websocket_proxy::MutinyProxyCommand::Disconnect { to, from }) => {
            Some(Command::Disconnect { to, from })
        },
        Err(_) => None,
    }
}

} // verus!
