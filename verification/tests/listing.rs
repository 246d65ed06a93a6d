use stt_mg::listing::{tanisa_wav, DirEntry};
use stt_mg::order::{place, Place};

fn file(name: &str) -> DirEntry {
    DirEntry { name: name.as_bytes().to_vec(), is_file: true }
}

fn names(entries: &[DirEntry]) -> Vec<String> {
    tanisa_wav(entries)
        .iter()
        .map(|&i| String::from_utf8(entries[i].name.clone()).unwrap())
        .collect()
}

#[test]
fn wav_files_are_listed_by_name() {
    let entries = [file("b.wav"), file("notes.txt"), file("a2.wav"), file("a10.wav"), file("B.wav")];
    assert_eq!(tanisa_wav(&entries), vec![4, 3, 2, 0]);
}

#[test]
fn extension_counts_in_any_case() {
    assert!(file("x.WAV").is_wav_file());
    assert!(file("x.wAv").is_wav_file());
    assert!(file("x.y.Wav").is_wav_file());
}

#[test]
fn other_names_are_no_wav_files() {
    for name in [".wav", "wav", "xwav", "x.wave", "x.wav.txt", "x.mav", "x.", "", "a.xav", "a.wax"] {
        assert!(!file(name).is_wav_file(), "{}", name);
    }
}

#[test]
fn names_agree_with_path_extensions() {
    for name in [".wav", "..wav", "a.wav", "a.b.wav", "wav", "a.WaV", "a.wav.", "a..wav", ".a.wav"] {
        let by_path = std::path::Path::new(name)
            .extension()
            .is_some_and(|ext| ext.eq_ignore_ascii_case("wav"));
        assert_eq!(file(name).is_wav_file(), by_path, "{}", name);
    }
}

#[test]
fn directories_are_left_out() {
    let folder = DirEntry { name: b"x.wav".to_vec(), is_file: false };
    assert!(!folder.is_wav_file());
    assert_eq!(tanisa_wav(&[folder, file("y.wav")]), vec![1]);
}

#[test]
fn names_need_not_be_text() {
    let odd = DirEntry { name: vec![0xff, b'.', b'w', b'a', b'v'], is_file: true };
    assert_eq!(tanisa_wav(&[odd, file("z.wav")]), vec![1, 0]);
}

#[test]
fn directory_order_does_not_matter() {
    let one = [file("c.wav"), file("a.wav"), file("b.wav")];
    let two = [file("b.wav"), file("c.wav"), file("a.wav")];
    assert_eq!(names(&one), vec!["a.wav", "b.wav", "c.wav"]);
    assert_eq!(names(&one), names(&two));
}

#[test]
fn equal_names_keep_their_order() {
    assert_eq!(tanisa_wav(&[file("a.wav"), file("a.wav")]), vec![0, 1]);
}

#[test]
fn place_is_lexicographic() {
    assert_eq!(place(b"a", b"ab"), Place::Before);
    assert_eq!(place(b"ab", b"a"), Place::After);
    assert_eq!(place(b"ab", b"ab"), Place::Same);
    assert_eq!(place(b"", b""), Place::Same);
    assert_eq!(place(b"Z", b"a"), Place::Before);
    assert_eq!(place(b"b", b"ab"), Place::After);
}
