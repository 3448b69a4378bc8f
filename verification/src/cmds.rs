//! The commands of the interactive command line, read from a line of text.

use crate::parse::{parse_u32, u32_text};
use crate::service::{pipeline_prompt, pipeline_prompt_text};
use crate::text::{
    has_prefix, join_from, join_spaced, lemma_words_of_join, lemma_words_plain, no_ws,
    split_whitespace, starts_with, views, words,
};
use vstd::prelude::*;

verus! {

/// Whether `a` and `b` are the same text.
pub fn str_eq(a: &str, b: &str) -> (r: bool)
    ensures
        r == (a@ == b@),
{
    let same_len = a.unicode_len() == b.unicode_len();
    if !same_len {
        return false;
    }
    let r = has_prefix(a, b);
    proof {
        assert(starts_with(a@, b@) ==> a@.take(b@.len() as int) =~= a@);
        if a@ == b@ {
            assert(a@.take(b@.len() as int) =~= b@);
        }
    }
    r
}

/// A command of the command line.
#[derive(Debug)]
pub enum Command {
    Help,
    Local,
    Connect(String),
    Ping { maddr: String, count: u32 },
    Fsub(String),
    Join(String),
    Leave(String),
    Publish { topic: String, msg: String },
    Topics,
    Fpeers,
    Bootmesh,
    Peers,
    Mesh,
    Slm(String),
    Adv(String),
    Ack { topic: String, prompt: String },
    Finalize(String),
    Pipe(u32),
    Unknown,
}

/// A command, as values.
pub enum CommandView {
    Help,
    Local,
    Connect(Seq<char>),
    Ping(Seq<char>, u32),
    Fsub(Seq<char>),
    Join(Seq<char>),
    Leave(Seq<char>),
    Publish(Seq<char>, Seq<char>),
    Topics,
    Fpeers,
    Bootmesh,
    Peers,
    Mesh,
    Slm(Seq<char>),
    Adv(Seq<char>),
    Ack(Seq<char>, Seq<char>),
    Finalize(Seq<char>),
    Pipe(u32),
    Unknown,
}

impl View for Command {
    type V = CommandView;

    open spec fn view(&self) -> CommandView {
        match self {
            Command::Help => CommandView::Help,
            Command::Local => CommandView::Local,
            Command::Connect(a) => CommandView::Connect(a@),
            Command::Ping { maddr, count } => CommandView::Ping(maddr@, *count),
            Command::Fsub(a) => CommandView::Fsub(a@),
            Command::Join(t) => CommandView::Join(t@),
            Command::Leave(t) => CommandView::Leave(t@),
            Command::Publish { topic, msg } => CommandView::Publish(topic@, msg@),
            Command::Topics => CommandView::Topics,
            Command::Fpeers => CommandView::Fpeers,
            Command::Bootmesh => CommandView::Bootmesh,
            Command::Peers => CommandView::Peers,
            Command::Mesh => CommandView::Mesh,
            Command::Slm(p) => CommandView::Slm(p@),
            Command::Adv(t) => CommandView::Adv(t@),
            Command::Ack { topic, prompt } => CommandView::Ack(topic@, prompt@),
            Command::Finalize(t) => CommandView::Finalize(t@),
            Command::Pipe(n) => CommandView::Pipe(*n),
            Command::Unknown => CommandView::Unknown,
        }
    }
}

/// A command that cannot be run as written.
#[derive(Debug, PartialEq, Eq, Structural)]
pub enum CmdError {
    /// The command lacks an argument it needs.
    MissingArgument,
    /// The provider count of `pipe` is not a `u32`.
    InvalidNumber,
}

/// The command that the words `ws` of a line give, `None` for a line without
/// words. Arguments past those a command takes are ignored; a ping count
/// that is absent or not a `u32` reads as 0; a message or prompt is the rest
/// of the words joined by single spaces. `ack` with no prompt after its
/// topic sends the prompt of the automated pipeline.
pub open spec fn command_of(ws: Seq<Seq<char>>) -> Result<Option<CommandView>, CmdError> {
    if ws.len() == 0 {
        Ok(None)
    } else {
        let c = ws[0];
        if c == "help"@ {
            Ok(Some(CommandView::Help))
        } else if c == "local"@ {
            Ok(Some(CommandView::Local))
        } else if c == "connect"@ {
            if ws.len() > 1 {
                Ok(Some(CommandView::Connect(ws[1])))
            } else {
                Err(CmdError::MissingArgument)
            }
        } else if c == "ping"@ {
            if ws.len() > 1 {
                Ok(
                    Some(
                        CommandView::Ping(
                            ws[1],
                            if ws.len() > 2 {
                                match u32_text(ws[2]) {
                                    Some(n) => n,
                                    None => 0,
                                }
                            } else {
                                0
                            },
                        ),
                    ),
                )
            } else {
                Err(CmdError::MissingArgument)
            }
        } else if c == "fsub"@ {
            if ws.len() > 1 {
                Ok(Some(CommandView::Fsub(ws[1])))
            } else {
                Err(CmdError::MissingArgument)
            }
        } else if c == "join"@ {
            if ws.len() > 1 {
                Ok(Some(CommandView::Join(ws[1])))
            } else {
                Err(CmdError::MissingArgument)
            }
        } else if c == "leave"@ {
            if ws.len() > 1 {
                Ok(Some(CommandView::Leave(ws[1])))
            } else {
                Err(CmdError::MissingArgument)
            }
        } else if c == "publish"@ {
            if ws.len() > 1 {
                Ok(Some(CommandView::Publish(ws[1], join_spaced(ws.skip(2)))))
            } else {
                Err(CmdError::MissingArgument)
            }
        } else if c == "topics"@ {
            Ok(Some(CommandView::Topics))
        } else if c == "fpeers"@ {
            Ok(Some(CommandView::Fpeers))
        } else if c == "bootmesh"@ {
            Ok(Some(CommandView::Bootmesh))
        } else if c == "peers"@ {
            Ok(Some(CommandView::Peers))
        } else if c == "mesh"@ {
            Ok(Some(CommandView::Mesh))
        } else if c == "slm"@ {
            Ok(Some(CommandView::Slm(join_spaced(ws.skip(1)))))
        } else if c == "adv"@ {
            if ws.len() > 1 {
                Ok(Some(CommandView::Adv(ws[1])))
            } else {
                Err(CmdError::MissingArgument)
            }
        } else if c == "ack"@ {
            if ws.len() > 1 {
                Ok(
                    Some(
                        CommandView::Ack(
                            ws[1],
                            if ws.len() > 2 {
                                join_spaced(ws.skip(2))
                            } else {
                                pipeline_prompt_text()
                            },
                        ),
                    ),
                )
            } else {
                Err(CmdError::MissingArgument)
            }
        } else if c == "finalize"@ {
            if ws.len() > 1 {
                Ok(Some(CommandView::Finalize(ws[1])))
            } else {
                Err(CmdError::MissingArgument)
            }
        } else if c == "pipe"@ {
            if ws.len() > 1 {
                match u32_text(ws[1]) {
                    Some(n) => Ok(Some(CommandView::Pipe(n))),
                    None => Err(CmdError::InvalidNumber),
                }
            } else {
                Err(CmdError::MissingArgument)
            }
        } else {
            Ok(Some(CommandView::Unknown))
        }
    }
}

/// The view of a parse result.
pub open spec fn parsed_view(r: Result<Option<Command>, CmdError>) -> Result<
    Option<CommandView>,
    CmdError,
> {
    match r {
        Ok(Some(c)) => Ok(Some(c@)),
        Ok(None) => Ok(None),
        Err(e) => Err(e),
    }
}

/// Reads the command on `line`, split at white space.
pub fn parse_command(line: &str) -> (r: Result<Option<Command>, CmdError>)
    ensures
        parsed_view(r) == command_of(words(line@)),
{
    let ws = split_whitespace(line);
    let ghost wv = views(ws@);
    if ws.len() == 0 {
        return Ok(None);
    }
    proof {
        assert(wv[0] == ws@[0]@);
        assert(ws.len() > 1 ==> wv[1] == ws@[1]@);
        assert(ws.len() > 2 ==> wv[2] == ws@[2]@);
    }
    let c = ws[0].as_str();
    if str_eq(c, "help") {
        Ok(Some(Command::Help))
    } else if str_eq(c, "local") {
        Ok(Some(Command::Local))
    } else if str_eq(c, "connect") {
        if ws.len() > 1 {
            Ok(Some(Command::Connect(ws[1].clone())))
        } else {
            Err(CmdError::MissingArgument)
        }
    } else if str_eq(c, "ping") {
        if ws.len() > 1 {
            let count = if ws.len() > 2 {
                match parse_u32(ws[2].as_str()) {
                    Some(n) => n,
                    None => 0,
                }
            } else {
                0
            };
            Ok(Some(Command::Ping { maddr: ws[1].clone(), count }))
        } else {
            Err(CmdError::MissingArgument)
        }
    } else if str_eq(c, "fsub") {
        if ws.len() > 1 {
            Ok(Some(Command::Fsub(ws[1].clone())))
        } else {
            Err(CmdError::MissingArgument)
        }
    } else if str_eq(c, "join") {
        if ws.len() > 1 {
            Ok(Some(Command::Join(ws[1].clone())))
        } else {
            Err(CmdError::MissingArgument)
        }
    } else if str_eq(c, "leave") {
        if ws.len() > 1 {
            Ok(Some(Command::Leave(ws[1].clone())))
        } else {
            Err(CmdError::MissingArgument)
        }
    } else if str_eq(c, "publish") {
        if ws.len() > 1 {
            let msg = join_from(&ws, 2);
            Ok(Some(Command::Publish { topic: ws[1].clone(), msg }))
        } else {
            Err(CmdError::MissingArgument)
        }
    } else if str_eq(c, "topics") {
        Ok(Some(Command::Topics))
    } else if str_eq(c, "fpeers") {
        Ok(Some(Command::Fpeers))
    } else if str_eq(c, "bootmesh") {
        Ok(Some(Command::Bootmesh))
    } else if str_eq(c, "peers") {
        Ok(Some(Command::Peers))
    } else if str_eq(c, "mesh") {
        Ok(Some(Command::Mesh))
    } else if str_eq(c, "slm") {
        let prompt = join_from(&ws, 1);
        Ok(Some(Command::Slm(prompt)))
    } else if str_eq(c, "adv") {
        if ws.len() > 1 {
            Ok(Some(Command::Adv(ws[1].clone())))
        } else {
            Err(CmdError::MissingArgument)
        }
    } else if str_eq(c, "ack") {
        if ws.len() > 1 {
            let prompt = if ws.len() > 2 {
                join_from(&ws, 2)
            } else {
                pipeline_prompt()
            };
            Ok(Some(Command::Ack { topic: ws[1].clone(), prompt }))
        } else {
            Err(CmdError::MissingArgument)
        }
    } else if str_eq(c, "finalize") {
        if ws.len() > 1 {
            Ok(Some(Command::Finalize(ws[1].clone())))
        } else {
            Err(CmdError::MissingArgument)
        }
    } else if str_eq(c, "pipe") {
        if ws.len() > 1 {
            match parse_u32(ws[1].as_str()) {
                Some(n) => Ok(Some(Command::Pipe(n))),
                None => Err(CmdError::InvalidNumber),
            }
        } else {
            Err(CmdError::MissingArgument)
        }
    } else {
        Ok(Some(Command::Unknown))
    }
}

/// The command names are all different.
proof fn lemma_command_names_differ()
    ensures
        "local"@ != "help"@,
        "connect"@ != "help"@,
        "connect"@ != "local"@,
        "ping"@ != "help"@,
        "ping"@ != "local"@,
        "ping"@ != "connect"@,
        "fsub"@ != "help"@,
        "fsub"@ != "local"@,
        "fsub"@ != "connect"@,
        "fsub"@ != "ping"@,
        "join"@ != "help"@,
        "join"@ != "local"@,
        "join"@ != "connect"@,
        "join"@ != "ping"@,
        "join"@ != "fsub"@,
        "leave"@ != "help"@,
        "leave"@ != "local"@,
        "leave"@ != "connect"@,
        "leave"@ != "ping"@,
        "leave"@ != "fsub"@,
        "leave"@ != "join"@,
        "publish"@ != "help"@,
        "publish"@ != "local"@,
        "publish"@ != "connect"@,
        "publish"@ != "ping"@,
        "publish"@ != "fsub"@,
        "publish"@ != "join"@,
        "publish"@ != "leave"@,
        "topics"@ != "help"@,
        "topics"@ != "local"@,
        "topics"@ != "connect"@,
        "topics"@ != "ping"@,
        "topics"@ != "fsub"@,
        "topics"@ != "join"@,
        "topics"@ != "leave"@,
        "topics"@ != "publish"@,
        "fpeers"@ != "help"@,
        "fpeers"@ != "local"@,
        "fpeers"@ != "connect"@,
        "fpeers"@ != "ping"@,
        "fpeers"@ != "fsub"@,
        "fpeers"@ != "join"@,
        "fpeers"@ != "leave"@,
        "fpeers"@ != "publish"@,
        "fpeers"@ != "topics"@,
        "bootmesh"@ != "help"@,
        "bootmesh"@ != "local"@,
        "bootmesh"@ != "connect"@,
        "bootmesh"@ != "ping"@,
        "bootmesh"@ != "fsub"@,
        "bootmesh"@ != "join"@,
        "bootmesh"@ != "leave"@,
        "bootmesh"@ != "publish"@,
        "bootmesh"@ != "topics"@,
        "bootmesh"@ != "fpeers"@,
        "peers"@ != "help"@,
        "peers"@ != "local"@,
        "peers"@ != "connect"@,
        "peers"@ != "ping"@,
        "peers"@ != "fsub"@,
        "peers"@ != "join"@,
        "peers"@ != "leave"@,
        "peers"@ != "publish"@,
        "peers"@ != "topics"@,
        "peers"@ != "fpeers"@,
        "peers"@ != "bootmesh"@,
        "mesh"@ != "help"@,
        "mesh"@ != "local"@,
        "mesh"@ != "connect"@,
        "mesh"@ != "ping"@,
        "mesh"@ != "fsub"@,
        "mesh"@ != "join"@,
        "mesh"@ != "leave"@,
        "mesh"@ != "publish"@,
        "mesh"@ != "topics"@,
        "mesh"@ != "fpeers"@,
        "mesh"@ != "bootmesh"@,
        "mesh"@ != "peers"@,
        "slm"@ != "help"@,
        "slm"@ != "local"@,
        "slm"@ != "connect"@,
        "slm"@ != "ping"@,
        "slm"@ != "fsub"@,
        "slm"@ != "join"@,
        "slm"@ != "leave"@,
        "slm"@ != "publish"@,
        "slm"@ != "topics"@,
        "slm"@ != "fpeers"@,
        "slm"@ != "bootmesh"@,
        "slm"@ != "peers"@,
        "slm"@ != "mesh"@,
        "adv"@ != "help"@,
        "adv"@ != "local"@,
        "adv"@ != "connect"@,
        "adv"@ != "ping"@,
        "adv"@ != "fsub"@,
        "adv"@ != "join"@,
        "adv"@ != "leave"@,
        "adv"@ != "publish"@,
        "adv"@ != "topics"@,
        "adv"@ != "fpeers"@,
        "adv"@ != "bootmesh"@,
        "adv"@ != "peers"@,
        "adv"@ != "mesh"@,
        "adv"@ != "slm"@,
        "ack"@ != "help"@,
        "ack"@ != "local"@,
        "ack"@ != "connect"@,
        "ack"@ != "ping"@,
        "ack"@ != "fsub"@,
        "ack"@ != "join"@,
        "ack"@ != "leave"@,
        "ack"@ != "publish"@,
        "ack"@ != "topics"@,
        "ack"@ != "fpeers"@,
        "ack"@ != "bootmesh"@,
        "ack"@ != "peers"@,
        "ack"@ != "mesh"@,
        "ack"@ != "slm"@,
        "ack"@ != "adv"@,
        "finalize"@ != "help"@,
        "finalize"@ != "local"@,
        "finalize"@ != "connect"@,
        "finalize"@ != "ping"@,
        "finalize"@ != "fsub"@,
        "finalize"@ != "join"@,
        "finalize"@ != "leave"@,
        "finalize"@ != "publish"@,
        "finalize"@ != "topics"@,
        "finalize"@ != "fpeers"@,
        "finalize"@ != "bootmesh"@,
        "finalize"@ != "peers"@,
        "finalize"@ != "mesh"@,
        "finalize"@ != "slm"@,
        "finalize"@ != "adv"@,
        "finalize"@ != "ack"@,
        "pipe"@ != "help"@,
        "pipe"@ != "local"@,
        "pipe"@ != "connect"@,
        "pipe"@ != "ping"@,
        "pipe"@ != "fsub"@,
        "pipe"@ != "join"@,
        "pipe"@ != "leave"@,
        "pipe"@ != "publish"@,
        "pipe"@ != "topics"@,
        "pipe"@ != "fpeers"@,
        "pipe"@ != "bootmesh"@,
        "pipe"@ != "peers"@,
        "pipe"@ != "mesh"@,
        "pipe"@ != "slm"@,
        "pipe"@ != "adv"@,
        "pipe"@ != "ack"@,
        "pipe"@ != "finalize"@,
{
    reveal_strlit("help");
    reveal_strlit("local");
    reveal_strlit("connect");
    reveal_strlit("ping");
    reveal_strlit("fsub");
    reveal_strlit("join");
    reveal_strlit("leave");
    reveal_strlit("publish");
    reveal_strlit("topics");
    reveal_strlit("fpeers");
    reveal_strlit("bootmesh");
    reveal_strlit("peers");
    reveal_strlit("mesh");
    reveal_strlit("slm");
    reveal_strlit("adv");
    reveal_strlit("ack");
    reveal_strlit("finalize");
    reveal_strlit("pipe");
    assert("local"@.len() != "help"@.len());
    assert("connect"@.len() != "help"@.len());
    assert("connect"@.len() != "local"@.len());
    assert("ping"@[0] != "help"@[0]);
    assert("ping"@.len() != "local"@.len());
    assert("ping"@.len() != "connect"@.len());
    assert("fsub"@[0] != "help"@[0]);
    assert("fsub"@.len() != "local"@.len());
    assert("fsub"@.len() != "connect"@.len());
    assert("fsub"@[0] != "ping"@[0]);
    assert("join"@[0] != "help"@[0]);
    assert("join"@.len() != "local"@.len());
    assert("join"@.len() != "connect"@.len());
    assert("join"@[0] != "ping"@[0]);
    assert("join"@[0] != "fsub"@[0]);
    assert("leave"@.len() != "help"@.len());
    assert("leave"@[1] != "local"@[1]);
    assert("leave"@.len() != "connect"@.len());
    assert("leave"@.len() != "ping"@.len());
    assert("leave"@.len() != "fsub"@.len());
    assert("leave"@.len() != "join"@.len());
    assert("publish"@.len() != "help"@.len());
    assert("publish"@.len() != "local"@.len());
    assert("publish"@[0] != "connect"@[0]);
    assert("publish"@.len() != "ping"@.len());
    assert("publish"@.len() != "fsub"@.len());
    assert("publish"@.len() != "join"@.len());
    assert("publish"@.len() != "leave"@.len());
    assert("topics"@.len() != "help"@.len());
    assert("topics"@.len() != "local"@.len());
    assert("topics"@.len() != "connect"@.len());
    assert("topics"@.len() != "ping"@.len());
    assert("topics"@.len() != "fsub"@.len());
    assert("topics"@.len() != "join"@.len());
    assert("topics"@.len() != "leave"@.len());
    assert("topics"@.len() != "publish"@.len());
    assert("fpeers"@.len() != "help"@.len());
    assert("fpeers"@.len() != "local"@.len());
    assert("fpeers"@.len() != "connect"@.len());
    assert("fpeers"@.len() != "ping"@.len());
    assert("fpeers"@.len() != "fsub"@.len());
    assert("fpeers"@.len() != "join"@.len());
    assert("fpeers"@.len() != "leave"@.len());
    assert("fpeers"@.len() != "publish"@.len());
    assert("fpeers"@[0] != "topics"@[0]);
    assert("bootmesh"@.len() != "help"@.len());
    assert("bootmesh"@.len() != "local"@.len());
    assert("bootmesh"@.len() != "connect"@.len());
    assert("bootmesh"@.len() != "ping"@.len());
    assert("bootmesh"@.len() != "fsub"@.len());
    assert("bootmesh"@.len() != "join"@.len());
    assert("bootmesh"@.len() != "leave"@.len());
    assert("bootmesh"@.len() != "publish"@.len());
    assert("bootmesh"@.len() != "topics"@.len());
    assert("bootmesh"@.len() != "fpeers"@.len());
    assert("peers"@.len() != "help"@.len());
    assert("peers"@[0] != "local"@[0]);
    assert("peers"@.len() != "connect"@.len());
    assert("peers"@.len() != "ping"@.len());
    assert("peers"@.len() != "fsub"@.len());
    assert("peers"@.len() != "join"@.len());
    assert("peers"@[0] != "leave"@[0]);
    assert("peers"@.len() != "publish"@.len());
    assert("peers"@.len() != "topics"@.len());
    assert("peers"@.len() != "fpeers"@.len());
    assert("peers"@.len() != "bootmesh"@.len());
    assert("mesh"@[0] != "help"@[0]);
    assert("mesh"@.len() != "local"@.len());
    assert("mesh"@.len() != "connect"@.len());
    assert("mesh"@[0] != "ping"@[0]);
    assert("mesh"@[0] != "fsub"@[0]);
    assert("mesh"@[0] != "join"@[0]);
    assert("mesh"@.len() != "leave"@.len());
    assert("mesh"@.len() != "publish"@.len());
    assert("mesh"@.len() != "topics"@.len());
    assert("mesh"@.len() != "fpeers"@.len());
    assert("mesh"@.len() != "bootmesh"@.len());
    assert("mesh"@.len() != "peers"@.len());
    assert("slm"@.len() != "help"@.len());
    assert("slm"@.len() != "local"@.len());
    assert("slm"@.len() != "connect"@.len());
    assert("slm"@.len() != "ping"@.len());
    assert("slm"@.len() != "fsub"@.len());
    assert("slm"@.len() != "join"@.len());
    assert("slm"@.len() != "leave"@.len());
    assert("slm"@.len() != "publish"@.len());
    assert("slm"@.len() != "topics"@.len());
    assert("slm"@.len() != "fpeers"@.len());
    assert("slm"@.len() != "bootmesh"@.len());
    assert("slm"@.len() != "peers"@.len());
    assert("slm"@.len() != "mesh"@.len());
    assert("adv"@.len() != "help"@.len());
    assert("adv"@.len() != "local"@.len());
    assert("adv"@.len() != "connect"@.len());
    assert("adv"@.len() != "ping"@.len());
    assert("adv"@.len() != "fsub"@.len());
    assert("adv"@.len() != "join"@.len());
    assert("adv"@.len() != "leave"@.len());
    assert("adv"@.len() != "publish"@.len());
    assert("adv"@.len() != "topics"@.len());
    assert("adv"@.len() != "fpeers"@.len());
    assert("adv"@.len() != "bootmesh"@.len());
    assert("adv"@.len() != "peers"@.len());
    assert("adv"@.len() != "mesh"@.len());
    assert("adv"@[0] != "slm"@[0]);
    assert("ack"@.len() != "help"@.len());
    assert("ack"@.len() != "local"@.len());
    assert("ack"@.len() != "connect"@.len());
    assert("ack"@.len() != "ping"@.len());
    assert("ack"@.len() != "fsub"@.len());
    assert("ack"@.len() != "join"@.len());
    assert("ack"@.len() != "leave"@.len());
    assert("ack"@.len() != "publish"@.len());
    assert("ack"@.len() != "topics"@.len());
    assert("ack"@.len() != "fpeers"@.len());
    assert("ack"@.len() != "bootmesh"@.len());
    assert("ack"@.len() != "peers"@.len());
    assert("ack"@.len() != "mesh"@.len());
    assert("ack"@[0] != "slm"@[0]);
    assert("ack"@[1] != "adv"@[1]);
    assert("finalize"@.len() != "help"@.len());
    assert("finalize"@.len() != "local"@.len());
    assert("finalize"@.len() != "connect"@.len());
    assert("finalize"@.len() != "ping"@.len());
    assert("finalize"@.len() != "fsub"@.len());
    assert("finalize"@.len() != "join"@.len());
    assert("finalize"@.len() != "leave"@.len());
    assert("finalize"@.len() != "publish"@.len());
    assert("finalize"@.len() != "topics"@.len());
    assert("finalize"@.len() != "fpeers"@.len());
    assert("finalize"@[0] != "bootmesh"@[0]);
    assert("finalize"@.len() != "peers"@.len());
    assert("finalize"@.len() != "mesh"@.len());
    assert("finalize"@.len() != "slm"@.len());
    assert("finalize"@.len() != "adv"@.len());
    assert("finalize"@.len() != "ack"@.len());
    assert("pipe"@[0] != "help"@[0]);
    assert("pipe"@.len() != "local"@.len());
    assert("pipe"@.len() != "connect"@.len());
    assert("pipe"@[2] != "ping"@[2]);
    assert("pipe"@[0] != "fsub"@[0]);
    assert("pipe"@[0] != "join"@[0]);
    assert("pipe"@.len() != "leave"@.len());
    assert("pipe"@.len() != "publish"@.len());
    assert("pipe"@.len() != "topics"@.len());
    assert("pipe"@.len() != "fpeers"@.len());
    assert("pipe"@.len() != "bootmesh"@.len());
    assert("pipe"@.len() != "peers"@.len());
    assert("pipe"@[0] != "mesh"@[0]);
    assert("pipe"@.len() != "slm"@.len());
    assert("pipe"@.len() != "adv"@.len());
    assert("pipe"@.len() != "ack"@.len());
    assert("pipe"@.len() != "finalize"@.len());
}

/// `publish` sends the words after its topic as the message, rejoined: the
/// message splits back into exactly those words, it is that word when
/// there is one, and it is empty only when there are none.
pub proof fn lemma_publish_message(line: Seq<char>)
    requires
        words(line).len() >= 2,
        words(line)[0] == "publish"@,
    ensures
        command_of(words(line)) matches Ok(Some(CommandView::Publish(topic, msg))) && topic
            == words(line)[1] && words(msg) == words(line).skip(2) && (words(line).len() == 3
            ==> msg == words(line)[2]) && (msg.len() == 0 <==> words(line).len() == 2),
{
    let ws = words(line);
    lemma_command_names_differ();
    lemma_words_plain(line);
    let rest = ws.skip(2);
    assert forall|i: int| 0 <= i < rest.len() implies (#[trigger] rest[i]).len() > 0 && no_ws(
        rest[i],
    ) by {
        assert(rest[i] == ws[i + 2]);
    }
    lemma_words_of_join(rest);
    if ws.len() > 2 {
        assert(rest[0].len() > 0);
        assert(words(join_spaced(rest)).len() > 0);
        assert(join_spaced(rest).len() > 0);
    }
}

/// `slm` sends the words after it as the prompt, rejoined: the prompt
/// splits back into exactly those words.
pub proof fn lemma_slm_prompt(line: Seq<char>)
    requires
        words(line).len() >= 1,
        words(line)[0] == "slm"@,
    ensures
        command_of(words(line)) matches Ok(Some(CommandView::Slm(prompt))) && words(prompt)
            == words(line).skip(1),
{
    let ws = words(line);
    lemma_command_names_differ();
    lemma_words_plain(line);
    let rest = ws.skip(1);
    assert forall|i: int| 0 <= i < rest.len() implies (#[trigger] rest[i]).len() > 0 && no_ws(
        rest[i],
    ) by {
        assert(rest[i] == ws[i + 1]);
    }
    lemma_words_of_join(rest);
}

/// A command that names a peer or a topic carries the word after it; the
/// commands that need such a word refuse a line without one; a line
/// without words has no command.
pub proof fn lemma_command_arguments(line: Seq<char>)
    ensures
        words(line).len() == 0 ==> command_of(words(line)) == Ok::<Option<CommandView>, CmdError>(
            None,
        ),
        words(line).len() == 1 && (words(line)[0] == "connect"@ || words(line)[0] == "ping"@
            || words(line)[0] == "fsub"@ || words(line)[0] == "join"@ || words(line)[0] == "leave"@
            || words(line)[0] == "publish"@ || words(line)[0] == "adv"@ || words(line)[0] == "ack"@
            || words(line)[0] == "finalize"@ || words(line)[0] == "pipe"@) ==> command_of(
            words(line),
        ) == Err::<Option<CommandView>, CmdError>(CmdError::MissingArgument),
        words(line).len() >= 2 ==> {
            let ws = words(line);
            &&& ws[0] == "connect"@ ==> command_of(ws) == Ok::<Option<CommandView>, CmdError>(
                Some(CommandView::Connect(ws[1])),
            )
            &&& ws[0] == "fsub"@ ==> command_of(ws) == Ok::<Option<CommandView>, CmdError>(
                Some(CommandView::Fsub(ws[1])),
            )
            &&& ws[0] == "join"@ ==> command_of(ws) == Ok::<Option<CommandView>, CmdError>(
                Some(CommandView::Join(ws[1])),
            )
            &&& ws[0] == "leave"@ ==> command_of(ws) == Ok::<Option<CommandView>, CmdError>(
                Some(CommandView::Leave(ws[1])),
            )
            &&& ws[0] == "adv"@ ==> command_of(ws) == Ok::<Option<CommandView>, CmdError>(
                Some(CommandView::Adv(ws[1])),
            )
            &&& ws[0] == "finalize"@ ==> command_of(ws) == Ok::<Option<CommandView>, CmdError>(
                Some(CommandView::Finalize(ws[1])),
            )
            &&& ws[0] == "ping"@ ==> (command_of(ws) matches Ok(Some(CommandView::Ping(m, c)))
                && m == ws[1] && (ws.len() > 2 && u32_text(ws[2]) is Some ==> c == u32_text(
                ws[2],
            )->0) && (ws.len() == 2 || u32_text(ws[2]) is None ==> c == 0))
            &&& ws[0] == "ack"@ ==> (command_of(ws) matches Ok(Some(CommandView::Ack(t, prompt)))
                && t == ws[1] && (ws.len() > 2 ==> words(prompt) == ws.skip(2)) && (ws.len() == 2
                ==> prompt == pipeline_prompt_text()))
            &&& ws[0] == "pipe"@ ==> match u32_text(ws[1]) {
                Some(n) => command_of(ws) == Ok::<Option<CommandView>, CmdError>(
                    Some(CommandView::Pipe(n)),
                ),
                None => command_of(ws) == Err::<Option<CommandView>, CmdError>(
                    CmdError::InvalidNumber,
                ),
            }
        },
{
    lemma_command_names_differ();
    lemma_words_plain(line);
    let ws = words(line);
    if ws.len() >= 2 {
        let rest = ws.skip(2);
        assert forall|i: int| 0 <= i < rest.len() implies (#[trigger] rest[i]).len() > 0 && no_ws(
            rest[i],
        ) by {
            assert(rest[i] == ws[i + 2]);
        }
        lemma_words_of_join(rest);
    }
}

} // verus!

