use crate::communication_bridge::{send_step, Channel, ChannelError, CommunicationBridge};
use crate::messages::Message;
use vstd::prelude::*;

verus! {

/// Host entry point: asks for the map `id`, found at `url`, to be registered
/// without replacing an existing entry.
pub fn send_map_information(
    bridge: &mut CommunicationBridge<Message>,
    url: String,
    id: String,
) -> (r: Result<(), ChannelError>)
    ensures
        (final(bridge).pending(), r) == send_step(
            old(bridge).pending(),
            old(bridge).capacity(),
            Message::UploadMapInformation { id, url, overwrite: false },
        ),
{
    bridge.send(Message::UploadMapInformation { id, url, overwrite: false })
}

/// Host entry point: asks for the map `id` to become the current map.
pub fn display_map(
    bridge: &mut CommunicationBridge<Message>,
    id: String,
) -> (r: Result<(), ChannelError>)
    ensures
        (final(bridge).pending(), r) == send_step(
            old(bridge).pending(),
            old(bridge).capacity(),
            Message::DisplayMap { id },
        ),
{
    bridge.send(Message::DisplayMap { id })
}

} // verus!
