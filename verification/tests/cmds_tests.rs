use inode::cmds::{parse_command, CmdError, Command};

#[test]
fn blank_lines_have_no_command() {
    assert!(matches!(parse_command(""), Ok(None)));
    assert!(matches!(parse_command("   \t "), Ok(None)));
}

#[test]
fn plain_commands() {
    assert!(matches!(parse_command("help"), Ok(Some(Command::Help))));
    assert!(matches!(parse_command("  local  "), Ok(Some(Command::Local))));
    assert!(matches!(parse_command("topics extra"), Ok(Some(Command::Topics))));
    assert!(matches!(parse_command("fpeers"), Ok(Some(Command::Fpeers))));
    assert!(matches!(parse_command("bootmesh"), Ok(Some(Command::Bootmesh))));
    assert!(matches!(parse_command("peers"), Ok(Some(Command::Peers))));
    assert!(matches!(parse_command("mesh"), Ok(Some(Command::Mesh))));
    assert!(matches!(parse_command("dance"), Ok(Some(Command::Unknown))));
    assert!(matches!(parse_command("HELP"), Ok(Some(Command::Unknown))));
}

#[test]
fn commands_with_an_address_or_topic() {
    match parse_command("connect /ip4/127.0.0.1/tcp/9 extra") {
        Ok(Some(Command::Connect(a))) => assert_eq!(a, "/ip4/127.0.0.1/tcp/9"),
        other => panic!("{:?}", other),
    }
    match parse_command("fsub /ip4/1.2.3.4/tcp/5") {
        Ok(Some(Command::Fsub(a))) => assert_eq!(a, "/ip4/1.2.3.4/tcp/5"),
        other => panic!("{:?}", other),
    }
    match parse_command("join t1") {
        Ok(Some(Command::Join(t))) => assert_eq!(t, "t1"),
        other => panic!("{:?}", other),
    }
    match parse_command("leave t1") {
        Ok(Some(Command::Leave(t))) => assert_eq!(t, "t1"),
        other => panic!("{:?}", other),
    }
}

#[test]
fn ping_counts() {
    match parse_command("ping addr 3") {
        Ok(Some(Command::Ping { maddr, count })) => {
            assert_eq!(maddr, "addr");
            assert_eq!(count, 3);
        }
        other => panic!("{:?}", other),
    }
    match parse_command("ping addr") {
        Ok(Some(Command::Ping { count, .. })) => assert_eq!(count, 0),
        other => panic!("{:?}", other),
    }
    match parse_command("ping addr lots") {
        Ok(Some(Command::Ping { count, .. })) => assert_eq!(count, 0),
        other => panic!("{:?}", other),
    }
}

#[test]
fn publish_and_slm_join_the_rest() {
    match parse_command("publish news  hello   brave new\tworld") {
        Ok(Some(Command::Publish { topic, msg })) => {
            assert_eq!(topic, "news");
            assert_eq!(msg, "hello brave new world");
        }
        other => panic!("{:?}", other),
    }
    match parse_command("publish news") {
        Ok(Some(Command::Publish { msg, .. })) => assert_eq!(msg, ""),
        other => panic!("{:?}", other),
    }
    match parse_command("slm What is   the Byzantine Generals Problem?") {
        Ok(Some(Command::Slm(p))) => assert_eq!(p, "What is the Byzantine Generals Problem?"),
        other => panic!("{:?}", other),
    }
    match parse_command("slm") {
        Ok(Some(Command::Slm(p))) => assert_eq!(p, ""),
        other => panic!("{:?}", other),
    }
}

#[test]
fn missing_arguments() {
    for line in ["connect", "ping", "fsub", "join", "leave", "publish"] {
        assert!(matches!(parse_command(line), Err(CmdError::MissingArgument)), "{}", line);
    }
}

#[test]
fn session_commands_of_the_manual_example() {
    match parse_command("adv my-task-01") {
        Ok(Some(Command::Adv(t))) => assert_eq!(t, "my-task-01"),
        other => panic!("{:?}", other),
    }
    match parse_command("ack my-task-01") {
        Ok(Some(Command::Ack { topic, prompt })) => {
            assert_eq!(topic, "my-task-01");
            assert_eq!(prompt, inode::service::pipeline_prompt());
        }
        other => panic!("{:?}", other),
    }
    match parse_command("ack my-task-01 What is  floodsub?") {
        Ok(Some(Command::Ack { topic, prompt })) => {
            assert_eq!(topic, "my-task-01");
            assert_eq!(prompt, "What is floodsub?");
        }
        other => panic!("{:?}", other),
    }
    match parse_command("finalize my-task-01") {
        Ok(Some(Command::Finalize(t))) => assert_eq!(t, "my-task-01"),
        other => panic!("{:?}", other),
    }
}

#[test]
fn pipe_takes_a_provider_count() {
    assert!(matches!(parse_command("pipe 3"), Ok(Some(Command::Pipe(3)))));
    assert!(matches!(parse_command("pipe +0"), Ok(Some(Command::Pipe(0)))));
    assert!(matches!(parse_command("pipe"), Err(CmdError::MissingArgument)));
    assert!(matches!(parse_command("pipe three"), Err(CmdError::InvalidNumber)));
    assert!(matches!(parse_command("pipe -1"), Err(CmdError::InvalidNumber)));
    for c in ["adv", "ack", "finalize"] {
        assert!(matches!(parse_command(c), Err(CmdError::MissingArgument)), "{}", c);
    }
}
