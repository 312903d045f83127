//! The foreground controller's decisions.
//!
//! The foreground loop multiplexes worker messages, the line editor, and
//! the terminal. The loop itself, the channels and the painting live
//! outside this crate; what is decided per worker message — what lands in
//! the pending output, what is forwarded to the data sink, what ends the
//! loop — is here.

use vstd::prelude::*;
use vstd::string::StringExecFns;

use crate::data::Data;
use crate::worker::{SpecMsg, ThreadMsg};

verus! {

/// What the foreground loop must do after one worker message.
pub enum ControlAction {
    /// Nothing beyond the pending-output change: keep looping.
    Continue,
    /// Write the cause to the diagnostic stream, then keep looping.
    ReportError(String),
    /// Hand the record to the application's data sink, then keep looping.
    ForwardData(Data),
    /// Flush pending output and leave the loop.
    Stop,
}

/// Foreground state: the output collected since the last flush to the
/// scrolling region.
pub struct Controller {
    pub pending: String,
}

impl Controller {
    /// A fresh controller with nothing pending.
    pub fn new() -> (r: Controller)
        ensures
            r.pending@ == Seq::<char>::empty(),
    {
        Controller { pending: String::new() }
    }

    /// React to one worker message: text accumulates in the pending
    /// output, worker lifecycle notices are echoed as one-line banners, a
    /// record is forwarded, an error is reported without stopping, and the
    /// worker's exit notice stops the loop.
    pub fn handle_msg(&mut self, msg: ThreadMsg) -> (r: ControlAction)
        ensures
            match msg@ {
                SpecMsg::Print(s) => final(self).pending@ == old(self).pending@ + s && r
                    is Continue,
                SpecMsg::Error(e) => final(self).pending@ == old(self).pending@ && r
                    is ReportError && r->ReportError_0@ == e,
                SpecMsg::Data(d) => final(self).pending@ == old(self).pending@ && r
                    is ForwardData && r->ForwardData_0 == d,
                SpecMsg::Done => final(self).pending@ == old(self).pending@
                    + "\nThread Done\n"@ && r is Continue,
                SpecMsg::Started => final(self).pending@ == old(self).pending@
                    + "\nThread Started\n"@ && r is Continue,
                SpecMsg::Exiting => final(self).pending@ == old(self).pending@
                    + "\nThread Exiting\n"@ && r is Stop,
            },
    {
        match msg {
            ThreadMsg::Print(s) => {
                self.pending.append(s.as_str());
                ControlAction::Continue
            },
            ThreadMsg::Error(e) => ControlAction::ReportError(e),
            ThreadMsg::Data(d) => ControlAction::ForwardData(d),
            ThreadMsg::Done => {
                self.pending.append("\nThread Done\n");
                ControlAction::Continue
            },
            ThreadMsg::Started => {
                self.pending.append("\nThread Started\n");
                ControlAction::Continue
            },
            ThreadMsg::Exiting => {
                self.pending.append("\nThread Exiting\n");
                ControlAction::Stop
            },
        }
    }

    /// Take the pending output for writing to the scrolling region,
    /// leaving nothing pending.
    pub fn take_pending(&mut self) -> (r: String)
        ensures
            r@ == old(self).pending@,
            final(self).pending@ == Seq::<char>::empty(),
    {
        let mut out = String::new();
        core::mem::swap(&mut out, &mut self.pending);
        out
    }
}

} // verus!
