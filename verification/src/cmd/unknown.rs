//! The stand-in for a command the server does not recognize.

use vstd::prelude::*;
use vstd::string::StringExecFns;
use crate::frame::{Frame, FrameModel};

verus! {

/// A command whose name matched nothing the server implements.
#[derive(Debug)]
pub struct Unknown {
    pub command_name: String,
}

impl Unknown {
    /// Keeps the unrecognized name so the reply can echo it.
    pub fn new(key: &str) -> (u: Unknown)
        ensures
            u.command_name@ == key@,
    {
        Unknown { command_name: String::from_str(key) }
    }

    /// The unrecognized name.
    pub fn get_name(&self) -> (r: &str)
        ensures
            r@ == self.command_name@,
    {
        self.command_name.as_str()
    }

    /// The reply: an error frame that names the command; the connection
    /// stays open.
    pub fn apply(self) -> (r: Frame)
        ensures
            r@ == FrameModel::Error("ERR unknown command '"@ + self.command_name@ + "'"@),
    {
        let mut msg = String::from_str("ERR unknown command '");
        msg.append(self.command_name.as_str());
        msg.append("'");
        Frame::Error(msg)
    }
}

} // verus!
