//! Arguments of the RENAME command.

use crate::imap::receiver::{bad, BadRequest, BadRequestView, Command, Request};
use vstd::prelude::*;

verus! {

/// The arguments of RENAME. The names are as the client sent them.
#[derive(Debug, Clone, PartialEq, Eq)]
pub struct Arguments {
    pub tag: String,
    pub mailbox_name: String,
    pub new_mailbox_name: String,
}

/// What a RENAME with the given tag and tokens parses to: exactly two
/// tokens, both of them text.
pub open spec fn parsed_rename(request: Request<Command>, r: Result<Arguments, BadRequest>) -> bool {
    let tokens = request.tokens@;
    if tokens.len() == 0 {
        r matches Err(e) && e@ == (BadRequestView {
            tag: request.tag@,
            message: "Missing argument."@,
        })
    } else if tokens.len() == 1 {
        r matches Err(e) && e@ == (BadRequestView {
            tag: request.tag@,
            message: "Missing new mailbox name."@,
        })
    } else if tokens.len() > 2 {
        r matches Err(e) && e@ == (BadRequestView {
            tag: request.tag@,
            message: "Too many arguments."@,
        })
    } else if tokens[0].text() is None || tokens[1].text() is None {
        r matches Err(e) && e@ == (BadRequestView {
            tag: request.tag@,
            message: "Invalid UTF-8 in argument."@,
        })
    } else {
        r matches Ok(a) && a.tag@ == request.tag@ && Some(a.mailbox_name@) == tokens[0].text()
            && Some(a.new_mailbox_name@) == tokens[1].text()
    }
}

impl Request<Command> {
    /// Parses the arguments of RENAME: the present name of the mailbox
    /// and its new name.
    pub fn parse_rename(self) -> (r: Result<Arguments, BadRequest>)
        ensures
            parsed_rename(self, r),
    {
        let n = self.tokens.len();
        if n == 2 {
            let mailbox_name = match self.tokens[0].unwrap_string() {
                Ok(s) => s,
                Err(e) => {
                    return Err(bad(&self.tag, e));
                },
            };
            let new_mailbox_name = match self.tokens[1].unwrap_string() {
                Ok(s) => s,
                Err(e) => {
                    return Err(bad(&self.tag, e));
                },
            };
            Ok(Arguments { mailbox_name, new_mailbox_name, tag: self.tag })
        } else if n == 0 {
            Err(self.into_error("Missing argument."))
        } else if n == 1 {
            Err(self.into_error("Missing new mailbox name."))
        } else {
            Err(self.into_error("Too many arguments."))
        }
    }
}

} // verus!
