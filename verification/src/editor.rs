use vstd::prelude::*;
use crate::fs::{
    RamFs, NodeView, first_dir, top_level, with_file_added, find_file_from, find_in_dir_from,
    lemma_read_after_create,
};
use crate::text::{str_eq, string_clear, string_pop, string_push};

verus! {

/// Where the editor stands.
#[derive(Debug, PartialEq, Eq, Clone, Copy, Structural)]
pub enum EditorState {
    /// Closed: keys are ignored.
    Inactive,
    /// Asking for the folder to save in (`Documents` or `Home`).
    PromptFolder,
    /// Asking for the file name.
    PromptFilename,
    /// Editing the text.
    Editing,
}

/// Size of the editor's text buffer: one sector.
pub const EDITOR_BUFFER_SIZE: usize = 512;

/// The first disk sector the editor saves to.
pub const FIRST_SAVE_SECTOR: u32 = 10;

/// What the editor asks its caller to do, in order.
#[derive(Debug, PartialEq, Eq)]
pub enum EditorOutput {
    /// Clear the screen.
    ClearScreen,
    /// Ask for the folder: `Documents or Home choose saving location: `.
    FolderPrompt,
    /// Print one character.
    Char(char),
    /// Break the line and ask for the file name.
    FilenamePrompt,
    /// Say that only `Documents` and `Home` are folders and ask for the folder again.
    UnknownFolder,
    /// Erase the character left of the cursor.
    Erase,
    /// Clear the screen and show the editor's title bar for this folder and file name.
    DrawUi(String, String),
    /// Clear the screen, say that the editor closed, and show the shell's prompt.
    Closed,
    /// Write these 512 bytes to this sector of the disk.
    WriteSector(u32, [u8; 512]),
    /// Say that the file was saved on the disk and in the file system.
    Saved,
}

/// The abstract value of an [`EditorOutput`].
pub enum EditorOutputView {
    ClearScreen,
    FolderPrompt,
    Char(char),
    FilenamePrompt,
    UnknownFolder,
    Erase,
    DrawUi(Seq<char>, Seq<char>),
    Closed,
    WriteSector(u32, Seq<u8>),
    Saved,
}

impl View for EditorOutput {
    type V = EditorOutputView;

    open spec fn view(&self) -> EditorOutputView {
        match self {
            EditorOutput::ClearScreen => EditorOutputView::ClearScreen,
            EditorOutput::FolderPrompt => EditorOutputView::FolderPrompt,
            EditorOutput::Char(c) => EditorOutputView::Char(*c),
            EditorOutput::FilenamePrompt => EditorOutputView::FilenamePrompt,
            EditorOutput::UnknownFolder => EditorOutputView::UnknownFolder,
            EditorOutput::Erase => EditorOutputView::Erase,
            EditorOutput::DrawUi(f, n) => EditorOutputView::DrawUi(f@, n@),
            EditorOutput::Closed => EditorOutputView::Closed,
            EditorOutput::WriteSector(lba, d) => EditorOutputView::WriteSector(*lba, d@),
            EditorOutput::Saved => EditorOutputView::Saved,
        }
    }
}

/// The abstract values of a list of outputs.
pub open spec fn editor_outputs_view(v: Seq<EditorOutput>) -> Seq<EditorOutputView> {
    v.map_values(|o: EditorOutput| o@)
}

/// The abstract value of the editor: its state, the folder and file name typed, the text typed
/// and the sector the next save goes to.
pub struct EditorView {
    pub state: EditorState,
    pub folder: Seq<char>,
    pub filename: Seq<char>,
    pub text: Seq<u8>,
    pub lba_sector: u32,
}

/// Whether a character is an ASCII letter or digit.
pub open spec fn is_alnum(c: char) -> bool {
    ('0' <= c && c <= '9') || ('a' <= c && c <= 'z') || ('A' <= c && c <= 'Z')
}

/// The sector image of a text: the text, then zeros up to 512 bytes.
pub open spec fn text_sector(text: Seq<u8>) -> Seq<u8> {
    Seq::new(512, |i: int| if i < text.len() { text[i] } else { 0u8 })
}

/// A key while asking for the folder: Enter accepts `Documents` or `Home` (anything else is
/// refused and cleared), backspace deletes, letters and digits are added.
pub open spec fn folder_key_spec(e: EditorView, c: char) -> (EditorView, Seq<EditorOutputView>) {
    if c == '\n' {
        if e.folder == "Documents"@ || e.folder == "Home"@ {
            (
                EditorView { state: EditorState::PromptFilename, ..e },
                seq![EditorOutputView::FilenamePrompt],
            )
        } else {
            (EditorView { folder: Seq::empty(), ..e }, seq![EditorOutputView::UnknownFolder])
        }
    } else if c == '\x08' && e.folder.len() > 0 {
        (EditorView { folder: e.folder.drop_last(), ..e }, seq![EditorOutputView::Erase])
    } else if is_alnum(c) {
        (EditorView { folder: e.folder.push(c), ..e }, seq![EditorOutputView::Char(c)])
    } else {
        (e, seq![])
    }
}

/// A key while asking for the file name: Enter starts editing, backspace deletes, letters,
/// digits and `.` are added.
pub open spec fn filename_key_spec(e: EditorView, c: char) -> (EditorView, Seq<EditorOutputView>) {
    if c == '\n' {
        (
            EditorView { state: EditorState::Editing, ..e },
            seq![EditorOutputView::DrawUi(e.folder, e.filename)],
        )
    } else if c == '\x08' && e.filename.len() > 0 {
        (EditorView { filename: e.filename.drop_last(), ..e }, seq![EditorOutputView::Erase])
    } else if is_alnum(c) || c == '.' {
        (EditorView { filename: e.filename.push(c), ..e }, seq![EditorOutputView::Char(c)])
    } else {
        (e, seq![])
    }
}

/// The file system after saving: the text becomes a file in the first top-level directory
/// named like the folder, when there is one.
pub open spec fn saved_fs(fs: NodeView, e: EditorView) -> NodeView {
    if first_dir(top_level(fs), e.folder) >= 0 {
        with_file_added(fs, first_dir(top_level(fs), e.folder), e.filename, e.text)
    } else {
        fs
    }
}

/// A key while editing: Ctrl+Q (0x11) closes, Ctrl+S (0x13) writes the buffer to the next
/// sector and adds the text as a file, backspace deletes, any other key is stored as its low
/// byte while the buffer has room.
pub open spec fn editing_key_spec(e: EditorView, fs: NodeView, c: char) -> (
    EditorView,
    NodeView,
    Seq<EditorOutputView>,
) {
    if c == '\x11' {
        (EditorView { state: EditorState::Inactive, ..e }, fs, seq![EditorOutputView::Closed])
    } else if c == '\x13' {
        (
            EditorView { lba_sector: (e.lba_sector + 1) as u32, ..e },
            saved_fs(fs, e),
            seq![
                EditorOutputView::WriteSector(e.lba_sector, text_sector(e.text)),
                EditorOutputView::Saved,
            ],
        )
    } else if c == '\x08' {
        if e.text.len() > 0 {
            (EditorView { text: e.text.drop_last(), ..e }, fs, seq![EditorOutputView::Erase])
        } else {
            (e, fs, seq![])
        }
    } else if e.text.len() < 512 {
        (EditorView { text: e.text.push(c as u8), ..e }, fs, seq![EditorOutputView::Char(c)])
    } else {
        (e, fs, seq![])
    }
}

/// One key in the editor, by its state.
pub open spec fn editor_key_spec(e: EditorView, fs: NodeView, c: char) -> (
    EditorView,
    NodeView,
    Seq<EditorOutputView>,
) {
    match e.state {
        EditorState::PromptFolder => {
            let (e2, o) = folder_key_spec(e, c);
            (e2, fs, o)
        },
        EditorState::PromptFilename => {
            let (e2, o) = filename_key_spec(e, c);
            (e2, fs, o)
        },
        EditorState::Editing => editing_key_spec(e, fs, c),
        EditorState::Inactive => (e, fs, seq![]),
    }
}

/// A text editor that saves one sector of text to the disk and to the file system.
pub struct Editor {
    pub state: EditorState,
    folder: String,
    filename: String,
    buffer: [u8; 512],
    cursor: usize,
    lba_sector: u32,
}

impl View for Editor {
    type V = EditorView;

    closed spec fn view(&self) -> EditorView {
        EditorView {
            state: self.state,
            folder: self.folder@,
            filename: self.filename@,
            text: self.buffer@.subrange(0, self.cursor as int),
            lba_sector: self.lba_sector,
        }
    }
}

impl Editor {
    /// The editor's invariant: the text fits the buffer and the rest of the buffer is zero.
    pub closed spec fn wf(&self) -> bool {
        &&& self.cursor <= 512
        &&& forall|i: int| self.cursor <= i < 512 ==> #[trigger] self.buffer@[i] == 0
    }

    /// A closed editor whose first save goes to sector 10.
    pub fn new() -> (e: Self)
        ensures
            e.wf(),
            e@ == (EditorView {
                state: EditorState::Inactive,
                folder: Seq::empty(),
                filename: Seq::empty(),
                text: Seq::empty(),
                lba_sector: FIRST_SAVE_SECTOR,
            }),
    {
        let e = Editor {
            state: EditorState::Inactive,
            folder: String::new(),
            filename: String::new(),
            buffer: [0u8; 512],
            cursor: 0,
            lba_sector: FIRST_SAVE_SECTOR,
        };
        assert(e@.text =~= Seq::<u8>::empty());
        e
    }

    /// The sector the next save writes to.
    pub fn next_sector(&self) -> (r: u32)
        ensures
            r == self@.lba_sector,
    {
        self.lba_sector
    }

    /// Opens the editor: empty folder, file name and text, asking for the folder.
    pub fn start(&mut self) -> (out: Vec<EditorOutput>)
        requires
            old(self).wf(),
        ensures
            final(self).wf(),
            final(self)@ == (EditorView {
                state: EditorState::PromptFolder,
                folder: Seq::empty(),
                filename: Seq::empty(),
                text: Seq::empty(),
                ..old(self)@
            }),
            editor_outputs_view(out@) == seq![
                EditorOutputView::ClearScreen,
                EditorOutputView::FolderPrompt,
            ],
    {
        self.state = EditorState::PromptFolder;
        string_clear(&mut self.folder);
        string_clear(&mut self.filename);
        self.buffer = [0u8; 512];
        self.cursor = 0;
        let mut out: Vec<EditorOutput> = Vec::new();
        out.push(EditorOutput::ClearScreen);
        out.push(EditorOutput::FolderPrompt);
        assert(self@.text =~= Seq::<u8>::empty());
        assert(editor_outputs_view(out@) =~= seq![
            EditorOutputView::ClearScreen,
            EditorOutputView::FolderPrompt,
        ]);
        out
    }

    /// Handles one key by the editor's state; see [`editor_key_spec`].
    pub fn handle_input(&mut self, fs: &mut RamFs, c: char) -> (out: Vec<EditorOutput>)
        requires
            old(self).wf(),
            old(self)@.state == EditorState::Editing && c == '\x13' ==> old(self)@.lba_sector
                < u32::MAX,
        ensures
            final(self).wf(),
            (final(self)@, final(fs)@, editor_outputs_view(out@)) == editor_key_spec(
                old(self)@,
                old(fs)@,
                c,
            ),
    {
        match self.state {
            EditorState::PromptFolder => self.handle_folder_prompt(c),
            EditorState::PromptFilename => self.handle_filename_prompt(c),
            EditorState::Editing => self.handle_editing(fs, c),
            EditorState::Inactive => {
                let out: Vec<EditorOutput> = Vec::new();
                assert(editor_outputs_view(out@) =~= seq![]);
                out
            },
        }
    }

    fn handle_folder_prompt(&mut self, c: char) -> (out: Vec<EditorOutput>)
        requires
            old(self).wf(),
        ensures
            final(self).wf(),
            (final(self)@, editor_outputs_view(out@)) == folder_key_spec(old(self)@, c),
    {
        let mut out: Vec<EditorOutput> = Vec::new();
        if c == '\n' {
            if str_eq(self.folder.as_str(), "Documents") || str_eq(self.folder.as_str(), "Home") {
                self.state = EditorState::PromptFilename;
                out.push(EditorOutput::FilenamePrompt);
            } else {
                out.push(EditorOutput::UnknownFolder);
                string_clear(&mut self.folder);
            }
        } else if c == '\x08' && self.folder.as_str().is_empty() == false {
            string_pop(&mut self.folder);
            out.push(EditorOutput::Erase);
        } else if is_ascii_alphanumeric(c) {
            string_push(&mut self.folder, c);
            out.push(EditorOutput::Char(c));
        }
        assert(editor_outputs_view(out@) =~= folder_key_spec(old(self)@, c).1);
        out
    }

    fn handle_filename_prompt(&mut self, c: char) -> (out: Vec<EditorOutput>)
        requires
            old(self).wf(),
        ensures
            final(self).wf(),
            (final(self)@, editor_outputs_view(out@)) == filename_key_spec(old(self)@, c),
    {
        let mut out: Vec<EditorOutput> = Vec::new();
        if c == '\n' {
            self.state = EditorState::Editing;
            out.push(self.draw_ui());
        } else if c == '\x08' && self.filename.as_str().is_empty() == false {
            string_pop(&mut self.filename);
            out.push(EditorOutput::Erase);
        } else if is_ascii_alphanumeric(c) || c == '.' {
            string_push(&mut self.filename, c);
            out.push(EditorOutput::Char(c));
        }
        assert(editor_outputs_view(out@) =~= filename_key_spec(old(self)@, c).1);
        out
    }

    fn handle_editing(&mut self, fs: &mut RamFs, c: char) -> (out: Vec<EditorOutput>)
        requires
            old(self).wf(),
            c == '\x13' ==> old(self)@.lba_sector < u32::MAX,
        ensures
            final(self).wf(),
            (final(self)@, final(fs)@, editor_outputs_view(out@)) == editing_key_spec(
                old(self)@,
                old(fs)@,
                c,
            ),
    {
        let mut out: Vec<EditorOutput> = Vec::new();
        if c == '\x11' {
            self.state = EditorState::Inactive;
            out.push(EditorOutput::Closed);
            assert(editor_outputs_view(out@) =~= seq![EditorOutputView::Closed]);
            return out;
        }
        if c == '\x13' {
            let out = self.save_file(fs);
            return out;
        }
        if c == '\x08' {
            if self.cursor > 0 {
                self.cursor = self.cursor - 1;
                self.buffer[self.cursor] = 0;
                out.push(EditorOutput::Erase);
                assert(self@.text =~= old(self)@.text.drop_last());
            }
        } else if self.cursor < EDITOR_BUFFER_SIZE {
            self.buffer[self.cursor] = c as u8;
            self.cursor = self.cursor + 1;
            out.push(EditorOutput::Char(c));
            assert(self@.text =~= old(self)@.text.push(c as u8));
        }
        assert(editor_outputs_view(out@) =~= editing_key_spec(old(self)@, old(fs)@, c).2);
        out
    }

    /// The title bar for the folder and file name being edited.
    fn draw_ui(&self) -> (out: EditorOutput)
        ensures
            out@ == EditorOutputView::DrawUi(self@.folder, self@.filename),
    {
        EditorOutput::DrawUi(self.folder.clone(), self.filename.clone())
    }

    /// Writes the whole buffer to the current sector, adds the text as a file in the chosen
    /// folder, and moves on to the next sector.
    fn save_file(&mut self, fs: &mut RamFs) -> (out: Vec<EditorOutput>)
        requires
            old(self).wf(),
            old(self)@.lba_sector < u32::MAX,
        ensures
            final(self).wf(),
            final(self)@ == (EditorView { lba_sector: (old(self)@.lba_sector + 1) as u32, ..old(self)@ }),
            final(fs)@ == saved_fs(old(fs)@, old(self)@),
            editor_outputs_view(out@) == seq![
                EditorOutputView::WriteSector(old(self)@.lba_sector, text_sector(old(self)@.text)),
                EditorOutputView::Saved,
            ],
    {
        let mut out: Vec<EditorOutput> = Vec::new();
        assert(self.buffer@ =~= text_sector(self@.text));
        out.push(EditorOutput::WriteSector(self.lba_sector, self.buffer));
        let content = vstd::slice::slice_subrange(self.buffer.as_slice(), 0, self.cursor);
        assert(content@ == self@.text);
        fs.create_file_in_dir(self.folder.as_str(), self.filename.as_str(), content);
        self.lba_sector = self.lba_sector + 1;
        out.push(EditorOutput::Saved);
        assert(editor_outputs_view(out@) =~= seq![
            EditorOutputView::WriteSector(old(self)@.lba_sector, text_sector(old(self)@.text)),
            EditorOutputView::Saved,
        ]);
        out
    }
}

/// Whether a character is an ASCII letter or digit (`char::is_ascii_alphanumeric`).
pub fn is_ascii_alphanumeric(c: char) -> (r: bool)
    ensures
        r == is_alnum(c),
{
    ('0' <= c && c <= '9') || ('a' <= c && c <= 'z') || ('A' <= c && c <= 'Z')
}

/// Saved text can be read back: when the chosen folder exists and holds no file of the chosen
/// name, reading that file after a save gives the text typed.
pub proof fn lemma_saved_text_readable(fs: NodeView, e: EditorView)
    requires
        fs is Directory,
        first_dir(top_level(fs), e.folder) >= 0,
        find_in_dir_from(
            top_level(fs)[first_dir(top_level(fs), e.folder)]->Directory_children,
            e.filename,
            0,
        ) is None,
    ensures
        find_file_from(top_level(saved_fs(fs, e)), e.folder, e.filename, 0) == Some(e.text),
{
    lemma_read_after_create(fs, e.folder, e.filename, e.text);
}

/// What holds of every editor state reached from a new editor: the folder typed holds only
/// letters and digits and, once past the folder prompt, is `Documents` or `Home`; the file
/// name holds only letters, digits and dots; the text fits one sector.
pub open spec fn editor_reachable_inv(e: EditorView) -> bool {
    &&& (e.state == EditorState::PromptFilename || e.state == EditorState::Editing) ==> (e.folder
        == "Documents"@ || e.folder == "Home"@)
    &&& forall|i: int| 0 <= i < e.folder.len() ==> is_alnum(#[trigger] e.folder[i])
    &&& forall|i: int|
        0 <= i < e.filename.len() ==> is_alnum(#[trigger] e.filename[i]) || e.filename[i] == '.'
    &&& e.text.len() <= 512
}

/// A new editor, and an editor just opened, are in a reachable state.
pub proof fn lemma_editor_inv_initial(e: EditorView)
    requires
        e.folder == Seq::<char>::empty(),
        e.filename == Seq::<char>::empty(),
        e.text == Seq::<u8>::empty(),
        e.state == EditorState::Inactive || e.state == EditorState::PromptFolder,
    ensures
        editor_reachable_inv(e),
{
}

/// Every key keeps the editor in a reachable state: the folder only becomes `Documents` or
/// `Home` when the folder prompt is left, and only letters, digits (and dots in file names)
/// are added.
pub proof fn lemma_editor_inv_step(e: EditorView, fs: NodeView, c: char)
    requires
        editor_reachable_inv(e),
    ensures
        editor_reachable_inv(editor_key_spec(e, fs, c).0),
{
    let e2 = editor_key_spec(e, fs, c).0;
    if e.state == EditorState::PromptFolder && c != '\n' && !(c == '\x08' && e.folder.len() > 0)
        && is_alnum(c) {
        assert forall|i: int| 0 <= i < e2.folder.len() implies is_alnum(#[trigger] e2.folder[i]) by {
            if i < e.folder.len() {
                assert(e2.folder[i] == e.folder[i]);
            }
        }
    }
    if e.state == EditorState::PromptFilename && c != '\n' && !(c == '\x08' && e.filename.len()
        > 0) && (is_alnum(c) || c == '.') {
        assert forall|i: int| 0 <= i < e2.filename.len() implies is_alnum(#[trigger] e2.filename[i])
            || e2.filename[i] == '.' by {
            if i < e.filename.len() {
                assert(e2.filename[i] == e.filename[i]);
            }
        }
    }
}

/// Keys at the file-name prompt edit the file name: a backspace removes its last character
/// (when there is one), a letter, digit or dot is appended, and the prompt stays open until
/// Enter.
pub proof fn lemma_filename_keys_edit_name(e: EditorView, fs: NodeView, c: char)
    requires
        e.state == EditorState::PromptFilename,
        c != '\n',
    ensures
        ({
            let e2 = editor_key_spec(e, fs, c).0;
            &&& e2.state == EditorState::PromptFilename
            &&& e2.folder == e.folder
            &&& (c == '\x08' && e.filename.len() > 0 ==> e2.filename == e.filename.subrange(
                0,
                e.filename.len() - 1,
            ))
            &&& (c == '\x08' && e.filename.len() == 0 ==> e2.filename == e.filename)
            &&& (is_alnum(c) || c == '.' ==> e2.filename == e.filename + seq![c])
        }),
{
}

/// A character typed at the file-name prompt and then deleted with backspace leaves the file
/// name as it was.
pub proof fn lemma_filename_type_then_erase(e: EditorView, fs: NodeView, c: char)
    requires
        e.state == EditorState::PromptFilename,
        is_alnum(c) || c == '.',
    ensures
        editor_key_spec(editor_key_spec(e, fs, c).0, fs, '\x08').0.filename == e.filename,
{
    let e1 = editor_key_spec(e, fs, c).0;
    assert(e1.filename.drop_last() =~= e.filename);
}

/// Keys at the folder prompt: backspace removes the folder's last character, a letter or
/// digit is appended; Enter moves on to the file name exactly when the folder is `Documents`
/// or `Home`, and otherwise empties the folder and asks again.
pub proof fn lemma_folder_keys(e: EditorView, fs: NodeView, c: char)
    requires
        e.state == EditorState::PromptFolder,
    ensures
        ({
            let (e2, fs2, o) = editor_key_spec(e, fs, c);
            &&& fs2 == fs
            &&& e2.filename == e.filename && e2.text == e.text && e2.lba_sector == e.lba_sector
            &&& (c == '\x08' && e.folder.len() > 0 ==> e2.folder == e.folder.subrange(
                0,
                e.folder.len() - 1,
            ) && e2.state == EditorState::PromptFolder)
            &&& (is_alnum(c) ==> e2.folder == e.folder + seq![c] && e2.state
                == EditorState::PromptFolder)
            &&& (c == '\n' ==> ((e2.state == EditorState::PromptFilename) <==> (e.folder
                == "Documents"@ || e.folder == "Home"@)))
            &&& (c == '\n' && e2.state == EditorState::PromptFolder ==> e2.folder.len() == 0)
            &&& (c == '\n' && e2.state == EditorState::PromptFilename ==> e2.folder == e.folder)
        }),
{
}

/// Keys while editing: backspace removes the text's last byte, Ctrl+Q closes without
/// touching the text or the disk, Ctrl+S writes the text (padded with zeros to 512 bytes) to
/// the current sector and moves to the next one, and any other key appends its low byte while
/// the text is shorter than 512 bytes.
pub proof fn lemma_editing_keys(e: EditorView, fs: NodeView, c: char)
    requires
        e.state == EditorState::Editing,
        e.text.len() <= 512,
        c == '\x13' ==> e.lba_sector < u32::MAX,
    ensures
        ({
            let (e2, fs2, o) = editor_key_spec(e, fs, c);
            &&& e2.folder == e.folder && e2.filename == e.filename
            &&& (c == '\x08' && e.text.len() > 0 ==> e2.text == e.text.subrange(
                0,
                e.text.len() - 1,
            ) && fs2 == fs)
            &&& (c == '\x11' ==> e2.state == EditorState::Inactive && e2.text == e.text && fs2
                == fs && o == seq![EditorOutputView::Closed])
            &&& (c == '\x13' ==> e2.text == e.text && e2.lba_sector == e.lba_sector + 1 && o.len()
                == 2 && (o[0] is WriteSector) && o[0]->WriteSector_0 == e.lba_sector
                && o[0]->WriteSector_1.len() == 512 && o[0]->WriteSector_1.subrange(
                0,
                e.text.len() as int,
            ) == e.text && (forall|i: int|
                e.text.len() <= i < 512 ==> #[trigger] o[0]->WriteSector_1[i] == 0))
            &&& (c != '\x08' && c != '\x11' && c != '\x13' && e.text.len() < 512 ==> e2.text
                == e.text + seq![(c as u32 % 256) as u8] && fs2 == fs)
        }),
{
    if c == '\x13' {
        let data = text_sector(e.text);
        assert(data.subrange(0, e.text.len() as int) =~= e.text);
    }
    if c != '\x08' && c != '\x11' && c != '\x13' && e.text.len() < 512 {
        let x = c as u32;
        assert(x as u8 == (x % 256) as u8) by (bit_vector);
        assert(c as u8 == x as u8);
    }
}

} // verus!
