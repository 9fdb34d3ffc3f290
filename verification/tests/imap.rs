use mta_queue::imap::acl::{ModRights, ModRightsOp, Rights, RightsError};

#[test]
fn rights_replace() {
    assert_eq!(
        ModRights::parse(b"lrswikda"),
        Ok(ModRights {
            op: ModRightsOp::Replace,
            rights: vec![
                Rights::Lookup,
                Rights::Read,
                Rights::Seen,
                Rights::Write,
                Rights::Insert,
                Rights::CreateMailbox,
                Rights::DeleteMessages,
                Rights::Administer,
            ],
        })
    );
}

#[test]
fn rights_add() {
    assert_eq!(
        ModRights::parse(b"+cda"),
        Ok(ModRights {
            op: ModRightsOp::Add,
            rights: vec![Rights::CreateMailbox, Rights::DeleteMessages, Rights::Administer],
        })
    );
}

#[test]
fn rights_remove() {
    assert_eq!(
        ModRights::parse(b"-lrswicda"),
        Ok(ModRights {
            op: ModRightsOp::Remove,
            rights: vec![
                Rights::Lookup,
                Rights::Read,
                Rights::Seen,
                Rights::Write,
                Rights::Insert,
                Rights::CreateMailbox,
                Rights::DeleteMessages,
                Rights::Administer,
            ],
        })
    );
}

#[test]
fn rights_every_letter() {
    assert_eq!(
        ModRights::parse(b"lrswipkxtea"),
        Ok(ModRights {
            op: ModRightsOp::Replace,
            rights: vec![
                Rights::Lookup,
                Rights::Read,
                Rights::Seen,
                Rights::Write,
                Rights::Insert,
                Rights::Post,
                Rights::CreateMailbox,
                Rights::DeleteMailbox,
                Rights::DeleteMessages,
                Rights::Expunge,
                Rights::Administer,
            ],
        })
    );
}

#[test]
fn rights_are_listed_once() {
    assert_eq!(
        ModRights::parse(b"kcltdl"),
        Ok(ModRights {
            op: ModRightsOp::Replace,
            rights: vec![Rights::CreateMailbox, Rights::Lookup, Rights::DeleteMessages],
        })
    );
}

#[test]
fn rights_need_at_least_one() {
    for value in [&b""[..], b"+", b"-"] {
        assert_eq!(ModRights::parse(value), Err(RightsError::Empty));
    }
    assert_eq!(RightsError::Empty.message(), "At least one right has to be specified.");
}

#[test]
fn rights_reject_the_first_invalid_byte() {
    assert_eq!(ModRights::parse(b"lrz"), Err(RightsError::InvalidCharacter(b'z')));
    assert_eq!(ModRights::parse(b"l+r"), Err(RightsError::InvalidCharacter(b'+')));
    assert_eq!(ModRights::parse(b"--l"), Err(RightsError::InvalidCharacter(b'-')));
    assert_eq!(ModRights::parse(b"lQz"), Err(RightsError::InvalidCharacter(b'Q')));
    assert_eq!(ModRights::parse(b" l"), Err(RightsError::InvalidCharacter(b' ')));
    assert_eq!(RightsError::InvalidCharacter(b'z').message(), "Invalid character 'z' in rights.");
    assert_eq!(RightsError::InvalidCharacter(b'\n').message(), "Invalid character '\\n' in rights.");
    assert_eq!(RightsError::InvalidCharacter(0xe9).message(), "Invalid character 'é' in rights.");
}

use mta_queue::imap::acl;
use mta_queue::imap::receiver::{BadRequest, Command, Request, Token};
use mta_queue::imap::rename;

fn request(tag: &str, command: Command, arguments: &[&str]) -> Request<Command> {
    Request {
        tag: tag.to_string(),
        command,
        tokens: arguments.iter().map(|a| Token::Argument(a.as_bytes().to_vec())).collect(),
    }
}

fn refused(tag: &str, message: &str) -> BadRequest {
    BadRequest { tag: tag.to_string(), message: message.to_string() }
}

#[test]
fn parse_acl() {
    for (command, arguments) in [
        (
            // A003 Setacl INBOX/Drafts Byron lrswikda
            request("A003", Command::SetAcl, &["INBOX/Drafts", "Byron", "lrswikda"]),
            acl::Arguments {
                tag: "A003".into(),
                mailbox_name: "INBOX/Drafts".into(),
                identifier: Some("Byron".into()),
                mod_rights: ModRights {
                    op: ModRightsOp::Replace,
                    rights: vec![
                        Rights::Lookup,
                        Rights::Read,
                        Rights::Seen,
                        Rights::Write,
                        Rights::Insert,
                        Rights::CreateMailbox,
                        Rights::DeleteMessages,
                        Rights::Administer,
                    ],
                }
                .into(),
            },
        ),
        (
            // A002 SETACL INBOX/Drafts Chris +cda
            request("A002", Command::SetAcl, &["INBOX/Drafts", "Chris", "+cda"]),
            acl::Arguments {
                tag: "A002".into(),
                mailbox_name: "INBOX/Drafts".into(),
                identifier: Some("Chris".into()),
                mod_rights: ModRights {
                    op: ModRightsOp::Add,
                    rights: vec![Rights::CreateMailbox, Rights::DeleteMessages, Rights::Administer],
                }
                .into(),
            },
        ),
        (
            // A036 SETACL INBOX/Drafts John -lrswicda
            request("A036", Command::SetAcl, &["INBOX/Drafts", "John", "-lrswicda"]),
            acl::Arguments {
                tag: "A036".into(),
                mailbox_name: "INBOX/Drafts".into(),
                identifier: Some("John".into()),
                mod_rights: ModRights {
                    op: ModRightsOp::Remove,
                    rights: vec![
                        Rights::Lookup,
                        Rights::Read,
                        Rights::Seen,
                        Rights::Write,
                        Rights::Insert,
                        Rights::CreateMailbox,
                        Rights::DeleteMessages,
                        Rights::Administer,
                    ],
                }
                .into(),
            },
        ),
        (
            // A001 GETACL INBOX/Drafts
            request("A001", Command::GetAcl, &["INBOX/Drafts"]),
            acl::Arguments {
                tag: "A001".into(),
                mailbox_name: "INBOX/Drafts".into(),
                identifier: None,
                mod_rights: None,
            },
        ),
    ] {
        assert_eq!(command.clone().parse_acl().unwrap(), arguments, "{:?}", command);
    }
}

#[test]
fn parse_acl_reports_what_is_missing() {
    assert_eq!(request("t1", Command::GetAcl, &[]).parse_acl(), Err(refused("t1", "Missing mailbox name.")));
    assert_eq!(
        request("t2", Command::DeleteAcl, &["INBOX"]).parse_acl(),
        Err(refused("t2", "Missing identifier."))
    );
    assert_eq!(
        request("t3", Command::SetAcl, &["INBOX", "Byron"]).parse_acl(),
        Err(refused("t3", "Missing rights."))
    );
    assert_eq!(
        request("t4", Command::SetAcl, &["INBOX", "Byron", "lq"]).parse_acl(),
        Err(refused("t4", "Invalid character 'q' in rights."))
    );
    assert_eq!(
        request("t5", Command::SetAcl, &["INBOX", "Byron", "+"]).parse_acl(),
        Err(refused("t5", "At least one right has to be specified."))
    );
    let mut binary = request("t6", Command::MyRights, &["INBOX"]);
    binary.tokens[0] = Token::Argument(vec![0xff, 0xfe]);
    assert_eq!(binary.parse_acl(), Err(refused("t6", "Invalid UTF-8 in argument.")));
}

#[test]
fn parse_acl_takes_what_the_command_needs() {
    let listed = request("t7", Command::ListRights, &["INBOX", "Byron", "ignored"]).parse_acl().unwrap();
    assert_eq!(listed.identifier.as_deref(), Some("Byron"));
    assert_eq!(listed.mod_rights, None);
    let mine = request("t8", Command::MyRights, &["Entwürfe", "ignored"]).parse_acl().unwrap();
    assert_eq!(mine.mailbox_name, "Entwürfe");
    assert_eq!(mine.identifier, None);
    let mut symbols = request("t9", Command::DeleteAcl, &["INBOX"]);
    symbols.tokens.push(Token::Dot);
    assert_eq!(symbols.parse_acl().unwrap().identifier.as_deref(), Some("."));
}

#[test]
fn parse_rename() {
    for (command, arguments) in [
        (
            // A142 RENAME "my funky mailbox" Private
            request("A142", Command::Rename, &["my funky mailbox", "Private"]),
            rename::Arguments {
                mailbox_name: "my funky mailbox".into(),
                new_mailbox_name: "Private".into(),
                tag: "A142".into(),
            },
        ),
        (
            // A142 RENAME {1+}\r\na {1+}\r\nb
            request("A142", Command::Rename, &["a", "b"]),
            rename::Arguments { mailbox_name: "a".into(), new_mailbox_name: "b".into(), tag: "A142".into() },
        ),
    ] {
        assert_eq!(command.parse_rename().unwrap(), arguments);
    }
}

#[test]
fn parse_rename_counts_its_arguments() {
    assert_eq!(request("r0", Command::Rename, &[]).parse_rename(), Err(refused("r0", "Missing argument.")));
    assert_eq!(
        request("r1", Command::Rename, &["a"]).parse_rename(),
        Err(refused("r1", "Missing new mailbox name."))
    );
    assert_eq!(
        request("r3", Command::Rename, &["a", "b", "c"]).parse_rename(),
        Err(refused("r3", "Too many arguments."))
    );
    let mut binary = request("r4", Command::Rename, &["a", "b"]);
    binary.tokens[1] = Token::Argument(vec![0xc3]);
    assert_eq!(binary.parse_rename(), Err(refused("r4", "Invalid UTF-8 in argument.")));
}

#[test]
fn tokens_read_as_text_and_bytes() {
    assert_eq!(Token::Argument(b"abc".to_vec()).unwrap_string(), Ok("abc".to_string()));
    assert_eq!(Token::Argument(b"abc".to_vec()).unwrap_bytes(), b"abc".to_vec());
    assert_eq!(Token::ParenthesisOpen.unwrap_string(), Ok("(".to_string()));
    assert_eq!(Token::BracketClose.unwrap_bytes(), b"]".to_vec());
    assert_eq!(Token::Nil.unwrap_string(), Ok(String::new()));
    assert_eq!(Token::Nil.unwrap_bytes(), Vec::<u8>::new());
    assert_eq!(Token::Argument(vec![0x80]).unwrap_string(), Err("Invalid UTF-8 in argument.".to_string()));
}
