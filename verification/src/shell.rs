use vstd::prelude::*;
use vstd::utf8::*;
use crate::setup::{
    SetupState, UserSession, SessionView, djb2, config_sector, hash_password, save_user_config,
};
use crate::text::{
    ascii_trim, bytes_eq, bytes_starts_with, string_from_utf8, trim_spec, ascii_chars,
    is_ascii_bytes, lemma_ascii_utf8,
};

verus! {

/// Number of slots of the key queue; one slot always stays free, so it holds at most 63 keys.
pub const KEY_BUFFER_SIZE: usize = 64;

/// The queue of typed characters between the keyboard interrupt and the shell task: a ring
/// buffer read at `tail` and written at `head`.
pub struct KeyBuffer {
    data: [char; 64],
    head: usize,
    tail: usize,
}

impl KeyBuffer {
    #[verifier::type_invariant]
    spec fn inv(self) -> bool {
        self.head < 64 && self.tail < 64
    }

    spec fn count(self) -> nat {
        ((self.head + 64 - self.tail) % 64) as nat
    }

    /// An empty queue.
    pub fn new() -> (q: Self)
        ensures
            q@ == Seq::<char>::empty(),
    {
        let q = KeyBuffer { data: ['\0'; 64], head: 0, tail: 0 };
        assert(q@ =~= Seq::<char>::empty());
        q
    }
}

impl View for KeyBuffer {
    type V = Seq<char>;

    /// The queued characters, oldest first.
    closed spec fn view(&self) -> Seq<char> {
        Seq::new(self.count(), |i: int| self.data@[(self.tail + i) % 64])
    }
}

/// The largest number of characters the queue holds.
pub open spec fn key_buffer_capacity() -> nat {
    63
}

/// Queues a typed character; when the queue is full the character is dropped.
pub fn handle_input(queue: &mut KeyBuffer, c: char)
    ensures
        old(queue)@.len() < key_buffer_capacity() ==> final(queue)@ == old(queue)@.push(c),
        old(queue)@.len() >= key_buffer_capacity() ==> final(queue)@ == old(queue)@,
        final(queue)@.len() <= key_buffer_capacity(),
{
    proof {
        use_type_invariant(&*queue);
    }
    let head = queue.head;
    let next = (head + 1) % 64;
    if next != queue.tail {
        let ghost old_q = queue@;
        queue.data[head] = c;
        queue.head = next;
        proof {
            use_type_invariant(&*queue);
            assert(queue@.len() == old_q.len() + 1);
            assert forall|i: int| 0 <= i < old_q.len() implies queue@[i] == old_q[i] by {
                assert((queue.tail + i) % 64 != head);
            }
            assert(queue@[old_q.len() as int] == c);
            assert(queue@ =~= old_q.push(c));
        }
    }
}

/// Takes the oldest queued character, `None` when the queue is empty.
pub fn pop_key_buffer(queue: &mut KeyBuffer) -> (r: Option<char>)
    ensures
        old(queue)@.len() > 0 ==> r == Some(old(queue)@[0]) && final(queue)@ == old(
            queue,
        )@.drop_first(),
        old(queue)@.len() == 0 ==> r is None && final(queue)@ == old(queue)@,
{
    proof {
        use_type_invariant(&*queue);
    }
    if queue.tail != queue.head {
        let ghost old_q = queue@;
        let c = queue.data[queue.tail];
        queue.tail = (queue.tail + 1) % 64;
        proof {
            use_type_invariant(&*queue);
            assert(queue@.len() == old_q.len() - 1);
            assert forall|i: int| 0 <= i < queue@.len() implies queue@[i] == old_q[i + 1] by {
                assert((queue.tail + i) % 64 == (old(queue).tail + i + 1) % 64);
            }
            assert(queue@ =~= old_q.drop_first());
        }
        Some(c)
    } else {
        None
    }
}

/// Size of the shell's line buffer; a line holds at most 63 characters.
pub const BUFFER_SIZE: usize = 64;

/// What the shell asks its caller to do, in order: print, clear the screen, write a sector,
/// or halt.
#[derive(Debug, PartialEq, Eq)]
pub enum ShellOutput {
    /// Print one character (an echoed key, a `*` for a password key, or a backspace).
    Char(char),
    /// Print a line break.
    Newline,
    /// Print the prompt for this state; in state `Complete` it shows the user name.
    Prompt(SetupState, String),
    /// Write these 512 bytes to this sector of the disk.
    WriteSector(u32, [u8; 512]),
    /// Clear the screen and announce that setup is complete and saved.
    SetupComplete,
    /// Announce that root privileges were granted.
    RootGranted,
    /// Announce that the root password was wrong.
    RootDenied,
    /// Print the command list; with `true` also the root commands.
    Help(bool),
    /// Say that the user already is root.
    AlreadyRoot,
    /// Say that root privileges were dropped.
    DroppedRoot,
    /// Say that the user is not root.
    NotRoot,
    /// Say that the configuration sector was reset.
    ResetDone,
    /// Say that the command needs root privileges.
    NeedRoot,
    /// Clear the screen.
    ClearScreen,
    /// Print the system banner.
    Neofetch,
    /// Print these bytes on a line.
    Echo(Vec<u8>),
    /// Report this line as an unknown command.
    UnknownCommand(Vec<u8>),
    /// Halt the system with a kernel panic.
    Panic,
}

/// The abstract value of a [`ShellOutput`].
pub enum OutputView {
    Char(char),
    Newline,
    Prompt(SetupState, Seq<char>),
    WriteSector(u32, Seq<u8>),
    SetupComplete,
    RootGranted,
    RootDenied,
    Help(bool),
    AlreadyRoot,
    DroppedRoot,
    NotRoot,
    ResetDone,
    NeedRoot,
    ClearScreen,
    Neofetch,
    Echo(Seq<u8>),
    UnknownCommand(Seq<u8>),
    Panic,
}

impl View for ShellOutput {
    type V = OutputView;

    open spec fn view(&self) -> OutputView {
        match self {
            ShellOutput::Char(c) => OutputView::Char(*c),
            ShellOutput::Newline => OutputView::Newline,
            ShellOutput::Prompt(st, name) => OutputView::Prompt(*st, name@),
            ShellOutput::WriteSector(lba, data) => OutputView::WriteSector(*lba, data@),
            ShellOutput::SetupComplete => OutputView::SetupComplete,
            ShellOutput::RootGranted => OutputView::RootGranted,
            ShellOutput::RootDenied => OutputView::RootDenied,
            ShellOutput::Help(a) => OutputView::Help(*a),
            ShellOutput::AlreadyRoot => OutputView::AlreadyRoot,
            ShellOutput::DroppedRoot => OutputView::DroppedRoot,
            ShellOutput::NotRoot => OutputView::NotRoot,
            ShellOutput::ResetDone => OutputView::ResetDone,
            ShellOutput::NeedRoot => OutputView::NeedRoot,
            ShellOutput::ClearScreen => OutputView::ClearScreen,
            ShellOutput::Neofetch => OutputView::Neofetch,
            ShellOutput::Echo(t) => OutputView::Echo(t@),
            ShellOutput::UnknownCommand(t) => OutputView::UnknownCommand(t@),
            ShellOutput::Panic => OutputView::Panic,
        }
    }
}

/// The abstract values of a list of outputs.
pub open spec fn outputs_view(v: Seq<ShellOutput>) -> Seq<OutputView> {
    v.map_values(|o: ShellOutput| o@)
}

/// The command prefix `echo `.
pub open spec fn kw_echo() -> Seq<u8> {
    seq![101u8, 99u8, 104u8, 111u8, 32u8]
}

/// The command `help`.
pub open spec fn kw_help() -> Seq<u8> {
    seq![104u8, 101u8, 108u8, 112u8]
}

/// The command `adm`.
pub open spec fn kw_adm() -> Seq<u8> {
    seq![97u8, 100u8, 109u8]
}

/// The command `exit_adm`, as the help text lists it.
pub open spec fn kw_exit_adm() -> Seq<u8> {
    seq![101u8, 120u8, 105u8, 116u8, 95u8, 97u8, 100u8, 109u8]
}

/// The command `exit.adm`, also accepted for dropping root privileges.
pub open spec fn kw_exit_adm_dot() -> Seq<u8> {
    seq![101u8, 120u8, 105u8, 116u8, 46u8, 97u8, 100u8, 109u8]
}

/// The command `reset`.
pub open spec fn kw_reset() -> Seq<u8> {
    seq![114u8, 101u8, 115u8, 101u8, 116u8]
}

/// The command `clear`.
pub open spec fn kw_clear() -> Seq<u8> {
    seq![99u8, 108u8, 101u8, 97u8, 114u8]
}

/// The command `neofetch`.
pub open spec fn kw_neofetch() -> Seq<u8> {
    seq![110u8, 101u8, 111u8, 102u8, 101u8, 116u8, 99u8, 104u8]
}

/// The command `panic`.
pub open spec fn kw_panic() -> Seq<u8> {
    seq![112u8, 97u8, 110u8, 105u8, 99u8]
}

/// A sector of zeros.
pub open spec fn zero_sector() -> Seq<u8> {
    Seq::new(512, |i: int| 0u8)
}

/// What a trimmed, non-empty command line does to the session and what it outputs.
pub open spec fn command_spec(cmd: Seq<u8>, s: SessionView) -> (SessionView, Seq<OutputView>) {
    if cmd.len() == 0 {
        (s, seq![])
    } else if kw_echo().len() <= cmd.len() && cmd.subrange(0, 5) == kw_echo() {
        (s, seq![OutputView::Echo(trim_spec(cmd.subrange(5, cmd.len() as int)))])
    } else if cmd == kw_help() {
        (s, seq![OutputView::Help(s.is_admin)])
    } else if cmd == kw_adm() {
        if s.is_admin {
            (s, seq![OutputView::AlreadyRoot])
        } else {
            (SessionView { state: SetupState::AuthAdmin, ..s }, seq![])
        }
    } else if cmd == kw_exit_adm() || cmd == kw_exit_adm_dot() {
        if s.is_admin {
            (SessionView { is_admin: false, ..s }, seq![OutputView::DroppedRoot])
        } else {
            (s, seq![OutputView::NotRoot])
        }
    } else if cmd == kw_reset() {
        if s.is_admin {
            (s, seq![OutputView::WriteSector(0, zero_sector()), OutputView::ResetDone])
        } else {
            (s, seq![OutputView::NeedRoot])
        }
    } else if cmd == kw_clear() {
        (s, seq![OutputView::ClearScreen])
    } else if cmd == kw_neofetch() {
        (s, seq![OutputView::Neofetch])
    } else if cmd == kw_panic() {
        (s, seq![OutputView::Panic])
    } else {
        (s, seq![OutputView::UnknownCommand(cmd)])
    }
}

/// The abstract value of the shell: the line typed so far and the name given during setup.
pub struct ShellView {
    pub input: Seq<u8>,
    pub temp_username: Seq<char>,
}

/// What a completed line does in the state the session is in, before the prompt is printed:
/// the new pending user name, the new session and the outputs.
pub open spec fn line_spec(line: Seq<u8>, temp: Seq<char>, s: SessionView) -> (
    Seq<char>,
    SessionView,
    Seq<OutputView>,
) {
    let cmd = trim_spec(line);
    match s.state {
        SetupState::SetupUsername => if cmd.len() > 0 {
            (ascii_chars(cmd), SessionView { state: SetupState::SetupPassword, ..s }, seq![])
        } else {
            (temp, s, seq![])
        },
        SetupState::SetupPassword => if cmd.len() > 0 {
            let h = djb2(cmd);
            (
                temp,
                SessionView {
                    username: temp,
                    password_hash: h,
                    state: SetupState::Complete,
                    ..s
                },
                seq![
                    OutputView::WriteSector(0, config_sector(encode_utf8(temp), h)),
                    OutputView::SetupComplete,
                ],
            )
        } else {
            (temp, s, seq![])
        },
        SetupState::AuthAdmin => if cmd.len() > 0 {
            if djb2(cmd) == s.password_hash {
                (
                    temp,
                    SessionView { is_admin: true, state: SetupState::Complete, ..s },
                    seq![OutputView::RootGranted],
                )
            } else {
                (temp, SessionView { state: SetupState::Complete, ..s }, seq![OutputView::RootDenied])
            }
        } else {
            (temp, s, seq![])
        },
        SetupState::Complete => {
            let (s2, o) = command_spec(cmd, s);
            (temp, s2, o)
        },
    }
}

/// Whether the outputs end by halting the system.
pub open spec fn halts(o: Seq<OutputView>) -> bool {
    o.len() > 0 && o.last() is Panic
}

/// What the Enter key does: the line is handled; unless that halts the system, the line is
/// cleared and the prompt for the new state is printed.
pub open spec fn enter_spec(sh: ShellView, s: SessionView) -> (ShellView, SessionView, Seq<
    OutputView,
>) {
    let (temp, s2, o) = line_spec(sh.input, sh.temp_username, s);
    if halts(o) {
        (ShellView { input: sh.input, temp_username: temp }, s2, o)
    } else {
        (
            ShellView { input: Seq::empty(), temp_username: temp },
            s2,
            o.push(OutputView::Prompt(s2.state, s2.username)),
        )
    }
}

/// What one key does to the shell and the session, and what it outputs.
pub open spec fn key_spec(sh: ShellView, s: SessionView, c: char) -> (ShellView, SessionView, Seq<
    OutputView,
>) {
    if c == '\n' {
        let (sh2, s2, o) = enter_spec(sh, s);
        (sh2, s2, seq![OutputView::Newline] + o)
    } else if c == '\x08' {
        if sh.input.len() > 0 {
            (ShellView { input: sh.input.drop_last(), ..sh }, s, seq![OutputView::Char(c)])
        } else {
            (sh, s, seq![])
        }
    } else if sh.input.len() < 63 && (c as u32) < 128 {
        let shown = if s.state == SetupState::SetupPassword || s.state == SetupState::AuthAdmin {
            '*'
        } else {
            c
        };
        (ShellView { input: sh.input.push(c as u8), ..sh }, s, seq![OutputView::Char(shown)])
    } else {
        (sh, s, seq![])
    }
}

/// The command line: the line being typed and the user name chosen during setup.
pub struct Shell {
    buffer: [u8; 64],
    cursor: usize,
    temp_username: String,
}

impl View for Shell {
    type V = ShellView;

    closed spec fn view(&self) -> ShellView {
        ShellView {
            input: self.buffer@.subrange(0, self.cursor as int),
            temp_username: self.temp_username@,
        }
    }
}

impl Shell {
    /// The shell's invariant: the typed line is ASCII and at most 63 bytes, the rest of the
    /// buffer is zero, and the pending user name is ASCII and at most 63 characters.
    pub closed spec fn wf(&self) -> bool {
        &&& self.cursor < 64
        &&& forall|i: int| 0 <= i < self.cursor ==> #[trigger] self.buffer@[i] < 128
        &&& forall|i: int| self.cursor <= i < 64 ==> #[trigger] self.buffer@[i] == 0
        &&& self.temp_username@.len() <= 63
        &&& is_ascii_chars(self.temp_username@)
    }

    /// An empty shell.
    pub fn new() -> (sh: Self)
        ensures
            sh.wf(),
            sh@.input == Seq::<u8>::empty(),
            sh@.temp_username == Seq::<char>::empty(),
    {
        let sh = Shell { buffer: [0u8; 64], cursor: 0, temp_username: String::new() };
        assert(sh@.input =~= Seq::<u8>::empty());
        sh
    }

    /// Handles one typed character: Enter handles the line, backspace deletes the last
    /// character, other ASCII characters are added while there is room; returns what to print
    /// or do.
    pub fn add_char(&mut self, session: &mut UserSession, c: char) -> (out: Vec<ShellOutput>)
        requires
            old(self).wf(),
        ensures
            final(self).wf(),
            (final(self)@, final(session)@, outputs_view(out@)) == key_spec(
                old(self)@,
                old(session)@,
                c,
            ),
    {
        if c == '\n' {
            let mut out: Vec<ShellOutput> = Vec::new();
            out.push(ShellOutput::Newline);
            let mut rest = self.handle_enter(session);
            let ghost r0 = rest@;
            out.append(&mut rest);
            proof {
                assert(outputs_view(out@) =~= seq![OutputView::Newline] + outputs_view(r0));
            }
            return out;
        }
        if c == '\x08' {
            let mut out: Vec<ShellOutput> = Vec::new();
            if self.cursor > 0 {
                self.cursor = self.cursor - 1;
                self.buffer[self.cursor] = 0;
                out.push(ShellOutput::Char(c));
                proof {
                    assert(self@.input =~= old(self)@.input.drop_last());
                    assert(outputs_view(out@) =~= seq![OutputView::Char(c)]);
                }
            } else {
                assert(outputs_view(out@) =~= seq![]);
            }
            return out;
        }
        let mut out: Vec<ShellOutput> = Vec::new();
        if self.cursor < BUFFER_SIZE - 1 && (c as u32) < 128 {
            self.buffer[self.cursor] = c as u8;
            self.cursor = self.cursor + 1;
            if session.state == SetupState::SetupPassword || session.state
                == SetupState::AuthAdmin {
                out.push(ShellOutput::Char('*'));
            } else {
                out.push(ShellOutput::Char(c));
            }
            proof {
                assert(self@.input =~= old(self)@.input.push(c as u8));
            }
        }
        proof {
            assert(outputs_view(out@) =~= key_spec(old(self)@, old(session)@, c).2);
        }
        out
    }

    /// The typed line, `buffer[..cursor]`.
    fn typed_line(&self) -> (r: Vec<u8>)
        requires
            self.wf(),
        ensures
            r@ == self@.input,
    {
        let mut r: Vec<u8> = Vec::new();
        let mut i: usize = 0;
        while i < self.cursor
            invariant
                i <= self.cursor < 64,
                r@ == self.buffer@.subrange(0, i as int),
            decreases self.cursor - i,
        {
            r.push(self.buffer[i]);
            i = i + 1;
            assert(r@ =~= self.buffer@.subrange(0, i as int));
        }
        r
    }

    /// The typed line without surrounding whitespace.
    fn trimmed_line(&self) -> (r: Vec<u8>)
        requires
            self.wf(),
        ensures
            r@ == trim_spec(self@.input),
            is_ascii_bytes(r@),
            r@.len() < 64,
    {
        let line = self.typed_line();
        let r = ascii_trim(line.as_slice());
        proof {
            lemma_trim_sub(self@.input);
        }
        r
    }

    /// Handles a completed line in the session's current state, then clears the line and
    /// returns the outputs followed by the new prompt (only the outputs when they halt).
    fn handle_enter(&mut self, session: &mut UserSession) -> (out: Vec<ShellOutput>)
        requires
            old(self).wf(),
        ensures
            final(self).wf(),
            (final(self)@, final(session)@, outputs_view(out@)) == enter_spec(
                old(self)@,
                old(session)@,
            ),
    {
        let input = self.trimmed_line();
        let mut out: Vec<ShellOutput> = Vec::new();
        match session.state {
            SetupState::SetupUsername => {
                if input.len() > 0 {
                    proof {
                        lemma_ascii_utf8(input@);
                    }
                    match string_from_utf8(input) {
                        Some(name) => {
                            self.temp_username = name;
                        },
                        None => {},
                    }
                    session.state = SetupState::SetupPassword;
                }
            },
            SetupState::SetupPassword => {
                if input.len() > 0 {
                    let hash = hash_password(input.as_slice());
                    proof {
                        lemma_ascii_chars_encode(self.temp_username@);
                    }
                    let sector = save_user_config(self.temp_username.as_str(), hash);
                    out.push(ShellOutput::WriteSector(0, sector));
                    session.username = self.temp_username.clone();
                    session.password_hash = hash;
                    session.state = SetupState::Complete;
                    out.push(ShellOutput::SetupComplete);
                }
            },
            SetupState::AuthAdmin => {
                if input.len() > 0 {
                    let input_hash = hash_password(input.as_slice());
                    if input_hash == session.password_hash {
                        session.is_admin = true;
                        session.state = SetupState::Complete;
                        out.push(ShellOutput::RootGranted);
                    } else {
                        session.state = SetupState::Complete;
                        out.push(ShellOutput::RootDenied);
                    }
                }
            },
            SetupState::Complete => {
                out = self.interpret_command(session);
            },
        }
        let ghost o = outputs_view(out@);
        proof {
            let (t, s2, o2) = line_spec(old(self)@.input, old(self)@.temp_username, old(session)@);
            assert(o =~= o2);
        }
        if out.len() > 0 {
            let last = out.len() - 1;
            if let ShellOutput::Panic = out[last] {
                return out;
            }
        }
        self.clear_buffer();
        out.push(self.print_prompt(session));
        proof {
            assert(outputs_view(out@) =~= o.push(
                OutputView::Prompt(session@.state, session@.username),
            ));
        }
        out
    }

    /// Empties the line.
    fn clear_buffer(&mut self)
        requires
            old(self).wf(),
        ensures
            final(self).wf(),
            final(self)@.input == Seq::<u8>::empty(),
            final(self)@.temp_username == old(self)@.temp_username,
    {
        self.buffer = [0u8; 64];
        self.cursor = 0;
        assert(self@.input =~= Seq::<u8>::empty());
    }

    /// The prompt for a state and user name.
    fn print_prompt_internal(&self, state: &SetupState, username: &String) -> (out: ShellOutput)
        ensures
            out@ == OutputView::Prompt(*state, username@),
    {
        ShellOutput::Prompt(*state, username.clone())
    }

    /// The prompt for the session's state.
    pub fn print_prompt(&self, session: &UserSession) -> (out: ShellOutput)
        ensures
            out@ == OutputView::Prompt(session.state, session.username@),
    {
        self.print_prompt_internal(&session.state, &session.username)
    }

    /// Runs the typed line as a command of a logged-in user.
    fn interpret_command(&self, session: &mut UserSession) -> (out: Vec<ShellOutput>)
        requires
            self.wf(),
        ensures
            (final(session)@, outputs_view(out@)) == command_spec(
                trim_spec(self@.input),
                old(session)@,
            ),
    {
        let command = self.trimmed_line();
        let mut out: Vec<ShellOutput> = Vec::new();
        if command.len() == 0 {
            assert(outputs_view(out@) =~= seq![]);
            return out;
        }
        let echo: [u8; 5] = [101u8, 99u8, 104u8, 111u8, 32u8];
        assert(echo@ =~= kw_echo());
        if bytes_starts_with(command.as_slice(), &echo) {
            let mut args: Vec<u8> = Vec::new();
            let mut i: usize = 5;
            while i < command.len()
                invariant
                    5 <= i <= command@.len(),
                    args@ == command@.subrange(5, i as int),
                decreases command@.len() - i,
            {
                args.push(command[i]);
                i = i + 1;
                assert(args@ =~= command@.subrange(5, i as int));
            }
            let text = ascii_trim(args.as_slice());
            out.push(ShellOutput::Echo(text));
            assert(outputs_view(out@) =~= seq![OutputView::Echo(text@)]);
            return out;
        }
        let help: [u8; 4] = [104u8, 101u8, 108u8, 112u8];
        let adm: [u8; 3] = [97u8, 100u8, 109u8];
        let exit_adm: [u8; 8] = [101u8, 120u8, 105u8, 116u8, 95u8, 97u8, 100u8, 109u8];
        let exit_adm_dot: [u8; 8] = [101u8, 120u8, 105u8, 116u8, 46u8, 97u8, 100u8, 109u8];
        let reset: [u8; 5] = [114u8, 101u8, 115u8, 101u8, 116u8];
        let clear: [u8; 5] = [99u8, 108u8, 101u8, 97u8, 114u8];
        let neofetch: [u8; 8] = [110u8, 101u8, 111u8, 102u8, 101u8, 116u8, 99u8, 104u8];
        let panic: [u8; 5] = [112u8, 97u8, 110u8, 105u8, 99u8];
        assert(help@ =~= kw_help());
        assert(adm@ =~= kw_adm());
        assert(exit_adm@ =~= kw_exit_adm());
        assert(exit_adm_dot@ =~= kw_exit_adm_dot());
        assert(reset@ =~= kw_reset());
        assert(clear@ =~= kw_clear());
        assert(neofetch@ =~= kw_neofetch());
        assert(panic@ =~= kw_panic());
        let cmd = command.as_slice();
        if bytes_eq(cmd, &help) {
            out.push(ShellOutput::Help(session.is_admin));
        } else if bytes_eq(cmd, &adm) {
            if session.is_admin {
                out.push(ShellOutput::AlreadyRoot);
            } else {
                session.state = SetupState::AuthAdmin;
            }
        } else if bytes_eq(cmd, &exit_adm) || bytes_eq(cmd, &exit_adm_dot) {
            if session.is_admin {
                session.is_admin = false;
                out.push(ShellOutput::DroppedRoot);
            } else {
                out.push(ShellOutput::NotRoot);
            }
        } else if bytes_eq(cmd, &reset) {
            if session.is_admin {
                let empty_sector = [0u8; 512];
                assert(empty_sector@ =~= zero_sector());
                out.push(ShellOutput::WriteSector(0, empty_sector));
                out.push(ShellOutput::ResetDone);
            } else {
                out.push(ShellOutput::NeedRoot);
            }
        } else if bytes_eq(cmd, &clear) {
            out.push(ShellOutput::ClearScreen);
        } else if bytes_eq(cmd, &neofetch) {
            out.push(ShellOutput::Neofetch);
        } else if bytes_eq(cmd, &panic) {
            out.push(ShellOutput::Panic);
        } else {
            out.push(ShellOutput::UnknownCommand(command));
        }
        proof {
            assert(outputs_view(out@) =~= command_spec(trim_spec(self@.input), old(session)@).1);
        }
        out
    }
}

/// The first prompt of the shell.
pub fn init(shell: &Shell, session: &UserSession) -> (out: ShellOutput)
    ensures
        out@ == OutputView::Prompt(session.state, session.username@),
{
    shell.print_prompt(session)
}

proof fn lemma_trim_start_sub(s: Seq<u8>)
    ensures
        crate::text::trim_start_spec(s).len() <= s.len(),
        forall|i: int|
            0 <= i < crate::text::trim_start_spec(s).len() ==> exists|j: int|
                0 <= j < s.len() && #[trigger] crate::text::trim_start_spec(s)[i] == s[j],
    decreases s.len(),
{
    if s.len() > 0 && crate::text::is_space_byte(s[0]) {
        lemma_trim_start_sub(s.drop_first());
        let t = crate::text::trim_start_spec(s);
        assert forall|i: int| 0 <= i < t.len() implies exists|j: int|
            0 <= j < s.len() && #[trigger] t[i] == s[j] by {
            let j = choose|j: int| 0 <= j < s.len() - 1 && t[i] == s.drop_first()[j];
            assert(t[i] == s[j + 1]);
        }
    } else {
        assert forall|i: int| 0 <= i < s.len() implies exists|j: int|
            0 <= j < s.len() && #[trigger] s[i] == s[j] by {
            assert(s[i] == s[i]);
        }
    }
}

proof fn lemma_trim_end_sub(s: Seq<u8>)
    ensures
        crate::text::trim_end_spec(s) == s.subrange(0, crate::text::trim_end_spec(s).len() as int),
        crate::text::trim_end_spec(s).len() <= s.len(),
    decreases s.len(),
{
    if s.len() > 0 && crate::text::is_space_byte(s.last()) {
        lemma_trim_end_sub(s.drop_last());
        let t = crate::text::trim_end_spec(s);
        assert(t =~= s.subrange(0, t.len() as int));
    } else {
        assert(s =~= s.subrange(0, s.len() as int));
    }
}

/// Trimming ASCII text gives ASCII text that is no longer.
proof fn lemma_trim_sub(s: Seq<u8>)
    requires
        is_ascii_bytes(s),
    ensures
        is_ascii_bytes(trim_spec(s)),
        trim_spec(s).len() <= s.len(),
{
    lemma_trim_start_sub(s);
    let t = crate::text::trim_start_spec(s);
    assert(is_ascii_bytes(t)) by {
        assert forall|i: int| 0 <= i < t.len() implies #[trigger] t[i] < 128 by {
            let j = choose|j: int| 0 <= j < s.len() && t[i] == s[j];
        }
    }
    lemma_trim_end_sub(t);
}

/// The UTF-8 encoding of ASCII characters is one byte per character.
proof fn lemma_ascii_chars_encode(c: Seq<char>)
    requires
        is_ascii_chars(c),
    ensures
        encode_utf8(c).len() == c.len(),
{
    is_ascii_chars_encode_utf8(c);
}

/// The root password set during setup is the one `adm` asks for: after setup takes a
/// password, the command `adm` asks for root, and a next non-empty line grants root exactly
/// when its hash is the hash of that password (and is refused otherwise).
pub proof fn lemma_setup_then_adm(
    pw: Seq<u8>,
    temp: Seq<char>,
    s: SessionView,
    adm_line: Seq<u8>,
    pw2: Seq<u8>,
)
    requires
        s.state == SetupState::SetupPassword,
        !s.is_admin,
        trim_spec(pw).len() > 0,
        trim_spec(adm_line) == kw_adm(),
        trim_spec(pw2).len() > 0,
    ensures
        ({
            let (t1, s1, o1) = line_spec(pw, temp, s);
            let (t2, s2, o2) = line_spec(adm_line, t1, s1);
            let (t3, s3, o3) = line_spec(pw2, t2, s2);
            &&& s1.state == SetupState::Complete
            &&& s1.password_hash == djb2(trim_spec(pw))
            &&& s2.state == SetupState::AuthAdmin
            &&& o2 == Seq::<OutputView>::empty()
            &&& s3.state == SetupState::Complete
            &&& s3.is_admin == (djb2(trim_spec(pw2)) == djb2(trim_spec(pw)))
            &&& o3 == if djb2(trim_spec(pw2)) == djb2(trim_spec(pw)) {
                seq![OutputView::RootGranted]
            } else {
                seq![OutputView::RootDenied]
            }
        }),
{
    let (t1, s1, o1) = line_spec(pw, temp, s);
    assert(!(kw_echo().len() <= kw_adm().len()));
    assert(kw_adm() != kw_help()) by {
        assert(kw_adm().len() != kw_help().len());
    }
    assert(command_spec(kw_adm(), s1).0 == SessionView { state: SetupState::AuthAdmin, ..s1 });
}

/// What a command may change in the session: never the user name or the password hash;
/// root privileges are only ever dropped; the state only changes when `adm` is typed by a user
/// who is not root, and then to `AuthAdmin`.
pub proof fn lemma_command_effects(cmd: Seq<u8>, s: SessionView)
    ensures
        ({
            let (s2, o) = command_spec(cmd, s);
            &&& s2.username == s.username
            &&& s2.password_hash == s.password_hash
            &&& (s2.is_admin ==> s.is_admin)
            &&& (s2.state != s.state ==> cmd == kw_adm() && !s.is_admin && s2.state
                == SetupState::AuthAdmin)
        }),
{
}

/// What Enter does around the handling of the line: unless the system halts, the line is
/// cleared and the last output is the prompt for the new state and user name; the system only
/// halts on the command `panic` in state `Complete`; and an empty line (after trimming) outside
/// state `Complete` leaves the session as it was.
pub proof fn lemma_enter_effects(sh: ShellView, s: SessionView)
    ensures
        ({
            let (sh2, s2, o) = enter_spec(sh, s);
            &&& !halts(o) ==> sh2.input == Seq::<u8>::empty() && o.len() > 0 && o.last()
                == OutputView::Prompt(s2.state, s2.username)
            &&& halts(o) ==> s.state == SetupState::Complete && trim_spec(sh.input) == kw_panic()
            &&& (trim_spec(sh.input).len() == 0 && s.state != SetupState::Complete) ==> s2 == s
        }),
{
    let (t, s2, o) = line_spec(sh.input, sh.temp_username, s);
    let cmd = trim_spec(sh.input);
    if halts(o) {
        if s.state == SetupState::Complete {
            assert(o == command_spec(cmd, s).1);
        }
    }
}

/// At the password prompt an empty line (after trimming) changes nothing: the pending user
/// name, the session and the outputs are as before, and the prompt is simply shown again.
pub proof fn lemma_empty_password_line_keeps_name(line: Seq<u8>, temp: Seq<char>, s: SessionView)
    requires
        s.state == SetupState::SetupPassword,
        trim_spec(line).len() == 0,
    ensures
        line_spec(line, temp, s).0 == temp,
        line_spec(line, temp, s).1 == s,
        line_spec(line, temp, s).2 == Seq::<OutputView>::empty(),
{
}

/// The setup dialog saves the user name that was typed: after a non-empty ASCII name line, any
/// empty line, and a non-empty password line, the session's user name is the trimmed name,
/// its hash is the hash of the trimmed password, and the sector written to sector 0 is the
/// configuration sector of exactly those bytes and that hash.
pub proof fn lemma_setup_saves_typed_name(
    name: Seq<u8>,
    blank: Seq<u8>,
    pw: Seq<u8>,
    temp: Seq<char>,
    s: SessionView,
)
    requires
        s.state == SetupState::SetupUsername,
        is_ascii_bytes(name),
        trim_spec(name).len() > 0,
        trim_spec(blank).len() == 0,
        trim_spec(pw).len() > 0,
    ensures
        ({
            let (t1, s1, o1) = line_spec(name, temp, s);
            let (t2, s2, o2) = line_spec(blank, t1, s1);
            let (t3, s3, o3) = line_spec(pw, t2, s2);
            &&& s1.state == SetupState::SetupPassword
            &&& s2.state == SetupState::SetupPassword
            &&& s3.state == SetupState::Complete
            &&& s3.username == ascii_chars(trim_spec(name))
            &&& s3.password_hash == djb2(trim_spec(pw))
            &&& o3.len() == 2
            &&& o3[0] == OutputView::WriteSector(
                0,
                config_sector(trim_spec(name), djb2(trim_spec(pw))),
            )
        }),
{
    lemma_trim_sub(name);
    lemma_ascii_utf8(trim_spec(name));
}

/// Keys other than Enter edit the typed line: backspace removes its last character, an ASCII
/// character is appended while the line holds fewer than 63, anything else is ignored. The
/// session never changes, and the only output is the echo: the character itself, or `*`
/// while a password is being typed.
pub proof fn lemma_key_edits_line(sh: ShellView, s: SessionView, c: char)
    requires
        c != '\n',
    ensures
        ({
            let (sh2, s2, o) = key_spec(sh, s, c);
            &&& s2 == s
            &&& sh2.temp_username == sh.temp_username
            &&& (c == '\x08' && sh.input.len() > 0 ==> sh2.input == sh.input.subrange(
                0,
                sh.input.len() - 1,
            ) && o == seq![OutputView::Char(c)])
            &&& (c != '\x08' && (c as u32) < 128 && sh.input.len() < 63 ==> sh2.input
                == sh.input + seq![c as u8] && o.len() == 1 && (o[0] == OutputView::Char('*')
                <==> (s.state == SetupState::SetupPassword || s.state == SetupState::AuthAdmin
                || c == '*')) && (s.state != SetupState::SetupPassword && s.state
                != SetupState::AuthAdmin ==> o[0] == OutputView::Char(c)))
            &&& ((c as u32) >= 128 || (c != '\x08' && sh.input.len() >= 63) ==> sh2.input
                == sh.input && o.len() == 0)
        }),
{
}

/// `echo` prints its argument without the surrounding whitespace: for a command line made of
/// `echo `, then any text, the only output is that text trimmed, and the session is unchanged.
pub proof fn lemma_echo_prints_argument(rest: Seq<u8>, s: SessionView)
    ensures
        command_spec(kw_echo() + rest, s) == (s, seq![OutputView::Echo(trim_spec(rest))]),
{
    let cmd = kw_echo() + rest;
    assert(cmd.subrange(0, 5) =~= kw_echo());
    assert(cmd.subrange(5, cmd.len() as int) =~= rest);
}

/// A line that is not a known command is reported back as typed (trimmed), with nothing else
/// done; `reset` only writes (zeros to sector 0) for root.
pub proof fn lemma_unknown_and_reset(cmd: Seq<u8>, s: SessionView)
    requires
        cmd.len() > 0,
    ensures
        ({
            let (s2, o) = command_spec(cmd, s);
            &&& (o.len() > 0 && o[0] is UnknownCommand) ==> o == seq![OutputView::UnknownCommand(cmd)] && s2 == s
            &&& cmd == kw_reset() ==> (s.is_admin <==> o.len() == 2 && o[0] == OutputView::WriteSector(
                0,
                Seq::new(512, |i: int| 0u8),
            ))
            &&& (forall|k: int| 0 <= k < o.len() ==> !(o[k] is WriteSector)) || cmd == kw_reset()
        }),
{
    assert(kw_reset() != kw_help()) by { assert(kw_reset().len() != kw_help().len()); }
    assert(kw_reset() != kw_adm()) by { assert(kw_reset().len() != kw_adm().len()); }
    assert(kw_reset() != kw_exit_adm()) by { assert(kw_reset().len() != kw_exit_adm().len()); }
    assert(kw_reset() != kw_exit_adm_dot()) by { assert(kw_reset().len() != kw_exit_adm_dot().len()); }
    assert(!(kw_echo().len() <= kw_reset().len() && kw_reset().subrange(0, 5) == kw_echo())) by {
        assert(kw_reset().subrange(0, 5)[0] != kw_echo()[0]);
    }
    assert(zero_sector() =~= Seq::new(512, |i: int| 0u8));
}

/// The commands without root-dependent effects, for every session: `help` lists the
/// commands (with the root commands exactly for root), `clear` clears the screen, `neofetch`
/// prints the banner and `panic` halts; none of them changes the session.
pub proof fn lemma_plain_commands(s: SessionView)
    ensures
        command_spec(kw_help(), s) == (s, seq![OutputView::Help(s.is_admin)]),
        command_spec(kw_clear(), s) == (s, seq![OutputView::ClearScreen]),
        command_spec(kw_neofetch(), s) == (s, seq![OutputView::Neofetch]),
        command_spec(kw_panic(), s) == (s, seq![OutputView::Panic]),
{
    assert(kw_clear()[0] != kw_reset()[0]);
    assert(kw_panic()[0] != kw_reset()[0]);
    assert(kw_panic()[0] != kw_clear()[0]);
    assert(kw_neofetch()[0] != kw_exit_adm()[0]);
    assert(kw_neofetch()[0] != kw_exit_adm_dot()[0]);
    assert(kw_clear().len() != kw_help().len() && kw_clear().len() != kw_adm().len());
    assert(kw_panic().len() != kw_help().len() && kw_panic().len() != kw_adm().len());
    assert(kw_neofetch().len() != kw_help().len() && kw_neofetch().len() != kw_adm().len());
    assert(kw_neofetch().len() != kw_reset().len() && kw_neofetch().len() != kw_clear().len());
    assert(kw_clear().len() != kw_exit_adm().len() && kw_panic().len() != kw_exit_adm().len());
    assert(kw_clear().len() != kw_exit_adm_dot().len() && kw_panic().len()
        != kw_exit_adm_dot().len());
    assert(kw_help().len() < kw_echo().len());
    assert(kw_clear().subrange(0, 5)[0] != kw_echo()[0]);
    assert(kw_panic().subrange(0, 5)[0] != kw_echo()[0]);
    assert(kw_neofetch().subrange(0, 5)[0] != kw_echo()[0]);
}

} // verus!
