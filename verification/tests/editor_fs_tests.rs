use hay_os::editor::{Editor, EditorOutput, EditorState};
use hay_os::fs::{FsNode, RamFs};

fn keys(e: &mut Editor, fs: &mut RamFs, s: &str) -> Vec<EditorOutput> {
    let mut out = Vec::new();
    for c in s.chars() {
        out.extend(e.handle_input(fs, c));
    }
    out
}

#[test]
fn new_file_system_has_documents_and_home() {
    let fs = RamFs::new();
    assert_eq!(fs.list_dir("Documents"), Some(vec![]));
    assert_eq!(fs.list_dir("Home"), Some(vec![]));
    assert_eq!(fs.list_dir("Music"), None);
    assert_eq!(fs.list_dir("/"), None);
}

#[test]
fn created_file_can_be_read_and_listed() {
    let mut fs = RamFs::new();
    assert!(fs.create_file_in_dir("Home", "notes.txt", b"hello"));
    assert_eq!(fs.read_file("Home", "notes.txt"), Some(b"hello".to_vec()));
    assert_eq!(fs.list_dir("Home"), Some(vec![String::from("notes.txt")]));
    assert_eq!(fs.read_file("Documents", "notes.txt"), None);
}

#[test]
fn creating_in_missing_directory_fails() {
    let mut fs = RamFs::new();
    assert!(!fs.create_file_in_dir("Music", "a", b"x"));
    assert_eq!(fs.read_file("Music", "a"), None);
}

#[test]
fn first_file_of_a_name_is_read() {
    let mut fs = RamFs::new();
    assert!(fs.create_file_in_dir("Documents", "a", b"one"));
    assert!(fs.create_file_in_dir("Documents", "a", b"two"));
    assert_eq!(fs.read_file("Documents", "a"), Some(b"one".to_vec()));
    assert_eq!(fs.list_dir("Documents"), Some(vec![String::from("a"), String::from("a")]));
}

#[test]
fn empty_file_is_stored() {
    let mut fs = RamFs::new();
    assert!(fs.create_file_in_dir("Documents", "e", b""));
    assert_eq!(fs.read_file("Documents", "e"), Some(vec![]));
}

#[test]
fn fs_node_variants_are_public() {
    let n = FsNode::File { name: String::from("x"), content: vec![1] };
    match n {
        FsNode::File { name, content } => {
            assert_eq!(name, "x");
            assert_eq!(content, vec![1]);
        },
        FsNode::Directory { .. } => panic!(),
    }
}

#[test]
fn closed_editor_ignores_keys() {
    let mut e = Editor::new();
    let mut fs = RamFs::new();
    assert_eq!(e.state, EditorState::Inactive);
    assert!(keys(&mut e, &mut fs, "abc\n").is_empty());
}

#[test]
fn start_asks_for_folder() {
    let mut e = Editor::new();
    assert_eq!(e.start(), vec![EditorOutput::ClearScreen, EditorOutput::FolderPrompt]);
    assert_eq!(e.state, EditorState::PromptFolder);
}

#[test]
fn unknown_folder_is_refused() {
    let mut e = Editor::new();
    let mut fs = RamFs::new();
    e.start();
    let out = keys(&mut e, &mut fs, "Music\n");
    assert_eq!(out[5], EditorOutput::UnknownFolder);
    assert_eq!(e.state, EditorState::PromptFolder);
    let out = keys(&mut e, &mut fs, "Home\n");
    assert_eq!(out[4], EditorOutput::FilenamePrompt);
    assert_eq!(e.state, EditorState::PromptFilename);
}

#[test]
fn folder_prompt_takes_only_letters_and_digits() {
    let mut e = Editor::new();
    let mut fs = RamFs::new();
    e.start();
    let out = keys(&mut e, &mut fs, "Ho me.\x08\x08\x08me\n");
    assert_eq!(out[0], EditorOutput::Char('H'));
    assert_eq!(out[1], EditorOutput::Char('o'));
    assert_eq!(out[2], EditorOutput::Char('m'));
    assert_eq!(out[3], EditorOutput::Char('e'));
    assert_eq!(out[4], EditorOutput::Erase);
    assert_eq!(out[5], EditorOutput::Erase);
    assert_eq!(out[6], EditorOutput::Erase);
    assert_eq!(out[7], EditorOutput::Char('m'));
    assert_eq!(out[8], EditorOutput::Char('e'));
    assert_eq!(out[9], EditorOutput::UnknownFolder);
}

#[test]
fn editing_and_saving_writes_disk_and_file() {
    let mut e = Editor::new();
    let mut fs = RamFs::new();
    e.start();
    keys(&mut e, &mut fs, "Documents\n");
    let out = keys(&mut e, &mut fs, "a.txt\n");
    assert_eq!(out[5], EditorOutput::DrawUi(String::from("Documents"), String::from("a.txt")));
    assert_eq!(e.state, EditorState::Editing);
    let out = keys(&mut e, &mut fs, "hiX\x08!");
    assert_eq!(out[3], EditorOutput::Erase);
    let out = keys(&mut e, &mut fs, "\x13");
    let mut sector = [0u8; 512];
    sector[0] = b'h';
    sector[1] = b'i';
    sector[2] = b'!';
    assert_eq!(out, vec![EditorOutput::WriteSector(10, sector), EditorOutput::Saved]);
    assert_eq!(fs.read_file("Documents", "a.txt"), Some(b"hi!".to_vec()));
    let out = keys(&mut e, &mut fs, "\x13");
    assert_eq!(out[0], EditorOutput::WriteSector(11, sector));
}

#[test]
fn editor_buffer_holds_512_bytes() {
    let mut e = Editor::new();
    let mut fs = RamFs::new();
    e.start();
    keys(&mut e, &mut fs, "Home\nf\n");
    let text = "q".repeat(600);
    let out = keys(&mut e, &mut fs, &text);
    assert_eq!(out.len(), 512);
    keys(&mut e, &mut fs, "\x13");
    assert_eq!(fs.read_file("Home", "f"), Some(vec![b'q'; 512]));
}

#[test]
fn editor_stores_low_byte_of_a_character() {
    let mut e = Editor::new();
    let mut fs = RamFs::new();
    e.start();
    keys(&mut e, &mut fs, "Home\nf\n");
    keys(&mut e, &mut fs, "é");
    keys(&mut e, &mut fs, "\x13");
    assert_eq!(fs.read_file("Home", "f"), Some(vec![0xE9]));
}

#[test]
fn ctrl_q_closes_editor() {
    let mut e = Editor::new();
    let mut fs = RamFs::new();
    e.start();
    keys(&mut e, &mut fs, "Home\nf\n");
    let out = keys(&mut e, &mut fs, "\x11");
    assert_eq!(out, vec![EditorOutput::Closed]);
    assert_eq!(e.state, EditorState::Inactive);
}
