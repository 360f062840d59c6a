//! The WebSocket channel: the progress message that is sent to every client.
use vstd::prelude::*;
use crate::models::message::WsMessage;
use crate::text::{concat, decimal, decimal_text};

verus! {

/// The progress message for file `file_index` (counted from 0) of the job `job_id`:
/// the file is named by its number counted from 1.
pub fn progress_message(job_id: String, file_index: usize, percent: u32) -> (r: WsMessage)
    requires
        file_index < usize::MAX,
    ensures
        r matches WsMessage::Progress { job_id: j, file, percent: p } && j == job_id && file@
            == "File "@ + decimal((file_index + 1) as nat) && p == percent,
{
    let number = decimal_text((file_index + 1) as u64);
    WsMessage::Progress { job_id, file: concat("File ", number.as_str()), percent }
}

} // verus!
