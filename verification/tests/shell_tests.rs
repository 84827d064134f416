use hay_os::setup::{hash_password, SetupState, UserSession};
use hay_os::shell::{handle_input, init, pop_key_buffer, KeyBuffer, Shell, ShellOutput};

fn type_line(sh: &mut Shell, s: &mut UserSession, line: &str) -> Vec<ShellOutput> {
    let mut out = Vec::new();
    for c in line.chars() {
        out.extend(sh.add_char(s, c));
    }
    out
}

fn logged_in() -> (Shell, UserSession) {
    let mut sh = Shell::new();
    let mut s = UserSession::new();
    type_line(&mut sh, &mut s, "alice\n");
    type_line(&mut sh, &mut s, "hunter2\n");
    (sh, s)
}

#[test]
fn first_prompt_asks_for_user_name() {
    let sh = Shell::new();
    let s = UserSession::new();
    assert_eq!(init(&sh, &s), ShellOutput::Prompt(SetupState::SetupUsername, String::new()));
}

#[test]
fn typed_characters_are_echoed() {
    let mut sh = Shell::new();
    let mut s = UserSession::new();
    let out = type_line(&mut sh, &mut s, "ab");
    assert_eq!(out, vec![ShellOutput::Char('a'), ShellOutput::Char('b')]);
}

#[test]
fn setup_dialog_saves_configuration() {
    let mut sh = Shell::new();
    let mut s = UserSession::new();
    let out = type_line(&mut sh, &mut s, "  alice \n");
    assert_eq!(s.state, SetupState::SetupPassword);
    assert_eq!(out.last(), Some(&ShellOutput::Prompt(SetupState::SetupPassword, String::new())));
    let out = type_line(&mut sh, &mut s, "hunter2\n");
    assert!(out[..7].iter().all(|o| *o == ShellOutput::Char('*')));
    assert_eq!(out[7], ShellOutput::Newline);
    match &out[8] {
        ShellOutput::WriteSector(0, data) => {
            assert_eq!(&data[0..4], b"HAY1");
            assert_eq!(data[4], 5);
            assert_eq!(&data[5..10], b"alice");
            assert_eq!(&data[40..48], &hash_password(b"hunter2").to_le_bytes());
        },
        other => panic!("unexpected {:?}", other),
    }
    assert_eq!(out[9], ShellOutput::SetupComplete);
    assert_eq!(out[10], ShellOutput::Prompt(SetupState::Complete, String::from("alice")));
    assert_eq!(out.len(), 11);
    assert_eq!(s.state, SetupState::Complete);
    assert_eq!(s.username, "alice");
    assert_eq!(s.password_hash, 229468867902797);
}

#[test]
fn empty_user_name_is_asked_again() {
    let mut sh = Shell::new();
    let mut s = UserSession::new();
    let out = type_line(&mut sh, &mut s, "   \n");
    assert_eq!(s.state, SetupState::SetupUsername);
    assert_eq!(out.last(), Some(&ShellOutput::Prompt(SetupState::SetupUsername, String::new())));
}

#[test]
fn help_lists_root_commands_only_for_root() {
    let (mut sh, mut s) = logged_in();
    let out = type_line(&mut sh, &mut s, "help\n");
    assert_eq!(out[5], ShellOutput::Help(false));
    s.is_admin = true;
    let out = type_line(&mut sh, &mut s, "help\n");
    assert_eq!(out[5], ShellOutput::Help(true));
}

#[test]
fn echo_prints_trimmed_arguments() {
    let (mut sh, mut s) = logged_in();
    let out = type_line(&mut sh, &mut s, "echo   hi there  \n");
    let n = out.len();
    assert_eq!(out[n - 2], ShellOutput::Echo(b"hi there".to_vec()));
}

#[test]
fn bare_echo_is_unknown() {
    let (mut sh, mut s) = logged_in();
    let out = type_line(&mut sh, &mut s, "echo  \n");
    let n = out.len();
    assert_eq!(out[n - 2], ShellOutput::UnknownCommand(b"echo".to_vec()));
}

#[test]
fn unknown_command_is_reported() {
    let (mut sh, mut s) = logged_in();
    let out = type_line(&mut sh, &mut s, "ls\n");
    assert_eq!(
        out,
        vec![
            ShellOutput::Char('l'),
            ShellOutput::Char('s'),
            ShellOutput::Newline,
            ShellOutput::UnknownCommand(b"ls".to_vec()),
            ShellOutput::Prompt(SetupState::Complete, String::from("alice")),
        ]
    );
}

#[test]
fn empty_command_only_prompts() {
    let (mut sh, mut s) = logged_in();
    let out = type_line(&mut sh, &mut s, "\n");
    assert_eq!(
        out,
        vec![ShellOutput::Newline, ShellOutput::Prompt(SetupState::Complete, String::from("alice"))]
    );
}

#[test]
fn adm_with_right_password_grants_root() {
    let (mut sh, mut s) = logged_in();
    let out = type_line(&mut sh, &mut s, "adm\n");
    assert_eq!(s.state, SetupState::AuthAdmin);
    assert_eq!(out.last(), Some(&ShellOutput::Prompt(SetupState::AuthAdmin, String::from("alice"))));
    let out = type_line(&mut sh, &mut s, "hunter2\n");
    assert!(out[..7].iter().all(|o| *o == ShellOutput::Char('*')));
    assert_eq!(out[8], ShellOutput::RootGranted);
    assert!(s.is_admin);
    assert_eq!(s.state, SetupState::Complete);
    let out = type_line(&mut sh, &mut s, "adm\n");
    assert_eq!(out[4], ShellOutput::AlreadyRoot);
}

#[test]
fn adm_with_wrong_password_is_refused() {
    let (mut sh, mut s) = logged_in();
    type_line(&mut sh, &mut s, "adm\n");
    let out = type_line(&mut sh, &mut s, "guess\n");
    assert_eq!(out[6], ShellOutput::RootDenied);
    assert!(!s.is_admin);
    assert_eq!(s.state, SetupState::Complete);
}

#[test]
fn exit_adm_drops_root() {
    let (mut sh, mut s) = logged_in();
    let out = type_line(&mut sh, &mut s, "exit.adm\n");
    assert_eq!(out[9], ShellOutput::NotRoot);
    s.is_admin = true;
    let out = type_line(&mut sh, &mut s, "exit.adm\n");
    assert_eq!(out[9], ShellOutput::DroppedRoot);
    assert!(!s.is_admin);
}

#[test]
fn reset_needs_root_and_zeroes_sector_zero() {
    let (mut sh, mut s) = logged_in();
    let out = type_line(&mut sh, &mut s, "reset\n");
    assert_eq!(out[6], ShellOutput::NeedRoot);
    s.is_admin = true;
    let out = type_line(&mut sh, &mut s, "reset\n");
    assert_eq!(out[6], ShellOutput::WriteSector(0, [0u8; 512]));
    assert_eq!(out[7], ShellOutput::ResetDone);
}

#[test]
fn clear_and_neofetch() {
    let (mut sh, mut s) = logged_in();
    let out = type_line(&mut sh, &mut s, "clear\n");
    assert_eq!(out[6], ShellOutput::ClearScreen);
    let out = type_line(&mut sh, &mut s, "neofetch\n");
    assert_eq!(out[9], ShellOutput::Neofetch);
}

#[test]
fn panic_command_halts_without_prompt() {
    let (mut sh, mut s) = logged_in();
    let out = type_line(&mut sh, &mut s, "panic\n");
    assert_eq!(out.last(), Some(&ShellOutput::Panic));
}

#[test]
fn backspace_deletes_last_character() {
    let (mut sh, mut s) = logged_in();
    let out = type_line(&mut sh, &mut s, "helpx\x08\n");
    assert_eq!(out[5], ShellOutput::Char('\x08'));
    assert_eq!(out[7], ShellOutput::Help(false));
}

#[test]
fn backspace_on_empty_line_does_nothing() {
    let (mut sh, mut s) = logged_in();
    assert!(sh.add_char(&mut s, '\x08').is_empty());
}

#[test]
fn line_holds_at_most_63_characters() {
    let (mut sh, mut s) = logged_in();
    let line: String = "a".repeat(70);
    let out = type_line(&mut sh, &mut s, &line);
    assert_eq!(out.len(), 63);
    let out = type_line(&mut sh, &mut s, "\n");
    assert_eq!(out[1], ShellOutput::UnknownCommand(vec![b'a'; 63]));
}

#[test]
fn non_ascii_characters_are_ignored() {
    let (mut sh, mut s) = logged_in();
    assert!(sh.add_char(&mut s, 'é').is_empty());
}

#[test]
fn print_prompt_shows_user_in_complete_state() {
    let (sh, s) = logged_in();
    assert_eq!(sh.print_prompt(&s), ShellOutput::Prompt(SetupState::Complete, String::from("alice")));
}

#[test]
fn key_queue_is_first_in_first_out() {
    let mut q = KeyBuffer::new();
    assert_eq!(pop_key_buffer(&mut q), None);
    handle_input(&mut q, 'x');
    handle_input(&mut q, 'y');
    assert_eq!(pop_key_buffer(&mut q), Some('x'));
    handle_input(&mut q, 'z');
    assert_eq!(pop_key_buffer(&mut q), Some('y'));
    assert_eq!(pop_key_buffer(&mut q), Some('z'));
    assert_eq!(pop_key_buffer(&mut q), None);
}

#[test]
fn key_queue_holds_63_characters() {
    let mut q = KeyBuffer::new();
    for i in 0..70u32 {
        handle_input(&mut q, char::from_u32('A' as u32 + i).unwrap());
    }
    let mut got = Vec::new();
    while let Some(c) = pop_key_buffer(&mut q) {
        got.push(c);
    }
    assert_eq!(got.len(), 63);
    assert_eq!(got[0], 'A');
    assert_eq!(got[62], char::from_u32('A' as u32 + 62).unwrap());
}

#[test]
fn key_queue_wraps_around() {
    let mut q = KeyBuffer::new();
    for round in 0..5u32 {
        for i in 0..50u32 {
            handle_input(&mut q, char::from_u32(0x100 + round * 50 + i).unwrap());
        }
        for i in 0..50u32 {
            assert_eq!(pop_key_buffer(&mut q), char::from_u32(0x100 + round * 50 + i));
        }
    }
    assert_eq!(pop_key_buffer(&mut q), None);
}

#[test]
fn exit_adm_as_listed_in_help_drops_root() {
    let (mut sh, mut s) = logged_in();
    s.is_admin = true;
    let out = type_line(&mut sh, &mut s, "exit_adm\n");
    assert_eq!(out[9], ShellOutput::DroppedRoot);
    assert!(!s.is_admin);
    let out = type_line(&mut sh, &mut s, "exit_adm\n");
    assert_eq!(out[9], ShellOutput::NotRoot);
}
