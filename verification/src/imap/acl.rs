//! Rights of the IMAP access-control extension and the parser of a
//! rights modification such as `lrswi`, `+cda` or `-x`.

use crate::imap::receiver::{bad, BadRequest, BadRequestView, Command, Request};
use vstd::prelude::*;
use vstd::string::StringExecFns;

verus! {

/// One access right on a mailbox.
#[derive(Debug, Clone, Copy, PartialEq, Eq, Structural)]
pub enum Rights {
    Lookup,
    Read,
    Seen,
    Write,
    Insert,
    Post,
    CreateMailbox,
    DeleteMailbox,
    DeleteMessages,
    Expunge,
    Administer,
}

/// How the listed rights change the rights that are in force.
#[derive(Debug, Clone, Copy, PartialEq, Eq, Structural)]
pub enum ModRightsOp {
    Add,
    Remove,
    Replace,
}

/// A rights modification: the operation and the rights it names, each
/// once, in the order in which they were first given.
#[derive(Debug, Clone, PartialEq, Eq)]
pub struct ModRights {
    pub op: ModRightsOp,
    pub rights: Vec<Rights>,
}

/// Why a rights modification was refused.
#[derive(Debug, Clone, Copy, PartialEq, Eq, Structural)]
pub enum RightsError {
    /// A byte that names no right, or a sign that is not in first place.
    InvalidCharacter(u8),
    /// No right was named.
    Empty,
}

/// The letter `l`.
pub const LOOKUP: u8 = 108;

/// The letter `r`.
pub const READ: u8 = 114;

/// The letter `s`.
pub const SEEN: u8 = 115;

/// The letter `w`.
pub const WRITE: u8 = 119;

/// The letter `i`.
pub const INSERT: u8 = 105;

/// The letter `p`.
pub const POST: u8 = 112;

/// The letter `k`.
pub const CREATE_MAILBOX: u8 = 107;

/// The letter `c`.
pub const CREATE_MAILBOX_OLD: u8 = 99;

/// The letter `x`.
pub const DELETE_MAILBOX: u8 = 120;

/// The letter `t`.
pub const DELETE_MESSAGES: u8 = 116;

/// The letter `d`.
pub const DELETE_MESSAGES_OLD: u8 = 100;

/// The letter `e`.
pub const EXPUNGE: u8 = 101;

/// The letter `a`.
pub const ADMINISTER: u8 = 97;

/// The sign `+`.
pub const PLUS: u8 = 43;

/// The sign `-`.
pub const MINUS: u8 = 45;

/// The right that a letter names. `d` and `c` are the older names of
/// `t` and `k`.
pub open spec fn right_of(ch: u8) -> Option<Rights> {
    if ch == LOOKUP {
        Some(Rights::Lookup)
    } else if ch == READ {
        Some(Rights::Read)
    } else if ch == SEEN {
        Some(Rights::Seen)
    } else if ch == WRITE {
        Some(Rights::Write)
    } else if ch == INSERT {
        Some(Rights::Insert)
    } else if ch == POST {
        Some(Rights::Post)
    } else if ch == CREATE_MAILBOX || ch == CREATE_MAILBOX_OLD {
        Some(Rights::CreateMailbox)
    } else if ch == DELETE_MAILBOX {
        Some(Rights::DeleteMailbox)
    } else if ch == DELETE_MESSAGES || ch == DELETE_MESSAGES_OLD {
        Some(Rights::DeleteMessages)
    } else if ch == EXPUNGE {
        Some(Rights::Expunge)
    } else if ch == ADMINISTER {
        Some(Rights::Administer)
    } else {
        None
    }
}

/// The byte at `pos` is a sign in first place.
pub open spec fn is_sign(value: Seq<u8>, pos: int) -> bool {
    pos == 0 && (value[pos] == PLUS || value[pos] == MINUS)
}

/// The byte at `pos` is neither a sign in first place nor a right.
pub open spec fn invalid_at(value: Seq<u8>, pos: int) -> bool {
    !is_sign(value, pos) && right_of(value[pos]) is None
}

/// The operation that a rights modification asks for.
pub open spec fn op_of(value: Seq<u8>) -> ModRightsOp {
    if value.len() > 0 && value[0] == PLUS {
        ModRightsOp::Add
    } else if value.len() > 0 && value[0] == MINUS {
        ModRightsOp::Remove
    } else {
        ModRightsOp::Replace
    }
}

/// The rights named by the first `n` bytes, each once, in the order of
/// first mention.
pub open spec fn rights_in(value: Seq<u8>, n: int) -> Seq<Rights>
    decreases n,
{
    if n <= 0 {
        Seq::empty()
    } else {
        let before = rights_in(value, n - 1);
        match right_of(value[n - 1]) {
            Some(r) if !is_sign(value, n - 1) && !before.contains(r) => before.push(r),
            _ => before,
        }
    }
}

/// What a rights modification parses to: the first invalid byte is
/// reported; without one, at least one right must be named.
pub open spec fn parsed_rights(value: Seq<u8>, r: Result<ModRights, RightsError>) -> bool {
    if exists|p: int| 0 <= p < value.len() && invalid_at(value, p) {
        exists|p: int|
            0 <= p < value.len() && #[trigger] invalid_at(value, p) && (forall|q: int|
                0 <= q < p ==> !invalid_at(value, q)) && r == Err::<ModRights, RightsError>(
                RightsError::InvalidCharacter(value[p]),
            )
    } else if rights_in(value, value.len() as int).len() == 0 {
        r == Err::<ModRights, RightsError>(RightsError::Empty)
    } else {
        r matches Ok(m) && m.op == op_of(value) && m.rights@ == rights_in(
            value,
            value.len() as int,
        )
    }
}

/// Whether `rights` holds `r`.
pub fn holds(rights: &Vec<Rights>, r: Rights) -> (found: bool)
    ensures
        found == rights@.contains(r),
{
    let n = rights.len();
    let mut i: usize = 0;
    while i < n
        invariant
            i <= n,
            n == rights@.len(),
            forall|k: int| 0 <= k < i ==> rights@[k] != r,
        decreases n - i,
    {
        if rights[i] == r {
            return true;
        }
        i += 1;
    }
    false
}

/// The right that a letter names.
pub fn right_for(ch: u8) -> (r: Option<Rights>)
    ensures
        r == right_of(ch),
{
    if ch == LOOKUP {
        Some(Rights::Lookup)
    } else if ch == READ {
        Some(Rights::Read)
    } else if ch == SEEN {
        Some(Rights::Seen)
    } else if ch == WRITE {
        Some(Rights::Write)
    } else if ch == INSERT {
        Some(Rights::Insert)
    } else if ch == POST {
        Some(Rights::Post)
    } else if ch == CREATE_MAILBOX || ch == CREATE_MAILBOX_OLD {
        Some(Rights::CreateMailbox)
    } else if ch == DELETE_MAILBOX {
        Some(Rights::DeleteMailbox)
    } else if ch == DELETE_MESSAGES || ch == DELETE_MESSAGES_OLD {
        Some(Rights::DeleteMessages)
    } else if ch == EXPUNGE {
        Some(Rights::Expunge)
    } else if ch == ADMINISTER {
        Some(Rights::Administer)
    } else {
        None
    }
}

impl ModRights {
    /// Parses a rights modification: an optional `+` or `-` in first
    /// place, then letters that each name a right.
    pub fn parse(value: &[u8]) -> (r: Result<ModRights, RightsError>)
        ensures
            parsed_rights(value@, r),
    {
        let n = value.len();
        let mut op = ModRightsOp::Replace;
        let mut rights: Vec<Rights> = Vec::new();
        let mut pos: usize = 0;
        while pos < n
            invariant
                pos <= n,
                n == value@.len(),
                forall|q: int| 0 <= q < pos ==> !invalid_at(value@, q),
                rights@ == rights_in(value@, pos as int),
                op == if pos > 0 {
                    op_of(value@)
                } else {
                    ModRightsOp::Replace
                },
            decreases n - pos,
        {
            let ch = value[pos];
            if pos == 0 && ch == PLUS {
                op = ModRightsOp::Add;
            } else if pos == 0 && ch == MINUS {
                op = ModRightsOp::Remove;
            } else {
                match right_for(ch) {
                    Some(right) => {
                        if !holds(&rights, right) {
                            rights.push(right);
                        }
                    },
                    None => {
                        proof {
                            assert(invalid_at(value@, pos as int));
                        }
                        return Err(RightsError::InvalidCharacter(ch));
                    },
                }
            }
            pos += 1;
        }
        if rights.len() > 0 {
            Ok(ModRights { op, rights })
        } else {
            Err(RightsError::Empty)
        }
    }
}

/// What the `Debug` formatting of the standard library writes for the
/// character with the code `ch`: the character in single quotes, escaped
/// where it does not print.
pub uninterp spec fn quoted_char(ch: u8) -> Seq<char>;

/// The character with the code `ch` as `Debug` formatting writes it; the
/// contract only names the result.
#[verifier::external_body]
pub(crate) fn quote_char(ch: u8) -> (s: String)
    ensures
        s@ == quoted_char(ch),
{
    format!("{:?}", char::from(ch))
}

impl RightsError {
    /// The text of the error.
    pub open spec fn text(self) -> Seq<char> {
        match self {
            RightsError::InvalidCharacter(ch) => "Invalid character "@ + quoted_char(ch)
                + " in rights."@,
            RightsError::Empty => "At least one right has to be specified."@,
        }
    }

    /// The message shown to the client.
    pub fn message(&self) -> (s: String)
        ensures
            s@ == self.text(),
    {
        match self {
            RightsError::InvalidCharacter(ch) => String::from_str("Invalid character ").concat(
                quote_char(*ch).as_str(),
            ).concat(" in rights."),
            RightsError::Empty => String::from_str("At least one right has to be specified."),
        }
    }
}

/// The arguments of an access-control command. The mailbox name is as
/// the client sent it.
#[derive(Debug, Clone, PartialEq, Eq)]
pub struct Arguments {
    pub tag: String,
    pub mailbox_name: String,
    pub identifier: Option<String>,
    pub mod_rights: Option<ModRights>,
}

impl Command {
    /// The command is one of the access-control commands.
    pub open spec fn is_acl(self) -> bool {
        !(self is Rename)
    }

    /// The command takes an identifier after the mailbox name.
    pub open spec fn has_identifier(self) -> bool {
        self is SetAcl || self is DeleteAcl || self is ListRights
    }

    /// The command takes a rights modification after the identifier.
    pub open spec fn has_mod_rights(self) -> bool {
        self is SetAcl
    }
}

/// The refusal under `tag` with the text `message`.
pub open spec fn refused(r: Result<Arguments, BadRequest>, tag: Seq<char>, message: Seq<char>) -> bool {
    r matches Err(e) && e@ == (BadRequestView { tag, message })
}

/// What an access-control command parses to. The mailbox name comes
/// first, then the identifier and the rights where the command takes
/// them; the first of them that is missing or unusable is reported, and
/// tokens after the last one are ignored.
pub open spec fn parsed_acl(request: Request<Command>, r: Result<Arguments, BadRequest>) -> bool {
    let tokens = request.tokens@;
    let tag = request.tag@;
    let command = request.command;
    if tokens.len() < 1 {
        refused(r, tag, "Missing mailbox name."@)
    } else if tokens[0].text() is None {
        refused(r, tag, "Invalid UTF-8 in argument."@)
    } else if command.has_identifier() && tokens.len() < 2 {
        refused(r, tag, "Missing identifier."@)
    } else if command.has_identifier() && tokens[1].text() is None {
        refused(r, tag, "Invalid UTF-8 in argument."@)
    } else if command.has_mod_rights() && tokens.len() < 3 {
        refused(r, tag, "Missing rights."@)
    } else if command.has_mod_rights() && exists|e: RightsError|
        parsed_rights(tokens[2].bytes(), Err::<ModRights, RightsError>(e)) {
        exists|e: RightsError|
            #![trigger e.text()]
            parsed_rights(tokens[2].bytes(), Err::<ModRights, RightsError>(e)) && refused(
                r,
                tag,
                e.text(),
            )
    } else {
        &&& r matches Ok(a)
        &&& a.tag@ == tag
        &&& Some(a.mailbox_name@) == tokens[0].text()
        &&& if command.has_identifier() {
            a.identifier matches Some(id) && Some(id@) == tokens[1].text()
        } else {
            a.identifier is None
        }
        &&& if command.has_mod_rights() {
            a.mod_rights matches Some(m) && parsed_rights(
                tokens[2].bytes(),
                Ok::<ModRights, RightsError>(m),
            )
        } else {
            a.mod_rights is None
        }
    }
}

impl Request<Command> {
    /// Parses the arguments of SETACL, DELETEACL, GETACL, LISTRIGHTS or
    /// MYRIGHTS.
    pub fn parse_acl(self) -> (r: Result<Arguments, BadRequest>)
        requires
            self.command.is_acl(),
        ensures
            parsed_acl(self, r),
    {
        let (has_identifier, has_mod_rights) = match self.command {
            Command::SetAcl => (true, true),
            Command::DeleteAcl => (true, false),
            Command::ListRights => (true, false),
            _ => (false, false),
        };
        let n = self.tokens.len();
        if n < 1 {
            return Err(bad(&self.tag, String::from_str("Missing mailbox name.")));
        }
        let mailbox_name = match self.tokens[0].unwrap_string() {
            Ok(s) => s,
            Err(e) => {
                return Err(bad(&self.tag, e));
            },
        };
        let identifier = if has_identifier {
            if n < 2 {
                return Err(bad(&self.tag, String::from_str("Missing identifier.")));
            }
            match self.tokens[1].unwrap_string() {
                Ok(s) => Some(s),
                Err(e) => {
                    return Err(bad(&self.tag, e));
                },
            }
        } else {
            None
        };
        let mod_rights = if has_mod_rights {
            if n < 3 {
                return Err(bad(&self.tag, String::from_str("Missing rights.")));
            }
            let bytes = self.tokens[2].unwrap_bytes();
            match ModRights::parse(bytes.as_slice()) {
                Ok(m) => {
                    proof {
                        lemma_parsed_rights_unique(bytes@, Ok::<ModRights, RightsError>(m));
                    }
                    Some(m)
                },
                Err(e) => {
                    proof {
                        assert(parsed_rights(bytes@, Err::<ModRights, RightsError>(e)));
                    }
                    return Err(bad(&self.tag, e.message()));
                },
            }
        } else {
            None
        };
        Ok(Arguments { tag: self.tag, mailbox_name, identifier, mod_rights })
    }
}

/// A rights modification parses to an error or to rights, never both.
pub proof fn lemma_parsed_rights_unique(value: Seq<u8>, r: Result<ModRights, RightsError>)
    requires
        parsed_rights(value, r),
    ensures
        r is Ok ==> !exists|e: RightsError| parsed_rights(value, Err::<ModRights, RightsError>(e)),
{
}

} // verus!
