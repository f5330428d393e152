use textutil::mode::format_mod;
use textutil::wc::{count, FileInfo};

#[test]
fn test_count() {
    let text = "I don't want the world.\nI just want your half.\r\n";
    let info = count(text);
    let expected = FileInfo {
        num_lines: 2,
        num_words: 10,
        num_chars: 48,
        num_bytes: 48,
    };
    assert_eq!(info, expected);
}

#[test]
fn test_count_edges() {
    let empty = count("");
    assert_eq!(
        empty,
        FileInfo {
            num_lines: 0,
            num_words: 0,
            num_chars: 0,
            num_bytes: 0,
        }
    );

    // A final fragment without a terminator still counts as a line.
    let frag = count("one two");
    assert_eq!(frag.num_lines, 1);
    assert_eq!(frag.num_words, 2);

    // Multi-byte characters: more bytes than characters.
    let uni = count("héllo\n");
    assert_eq!(uni.num_lines, 1);
    assert_eq!(uni.num_words, 1);
    assert_eq!(uni.num_chars, 6);
    assert_eq!(uni.num_bytes, 7);
}

#[test]
fn test_fileinfo_add() {
    let mut total = FileInfo {
        num_lines: 1,
        num_words: 2,
        num_bytes: 3,
        num_chars: 4,
    };
    let other = FileInfo {
        num_lines: 10,
        num_words: 20,
        num_bytes: 30,
        num_chars: 40,
    };
    total.add(&other);
    assert_eq!(
        total,
        FileInfo {
            num_lines: 11,
            num_words: 22,
            num_bytes: 33,
            num_chars: 44,
        }
    );
}

#[test]
fn test_format_mode() {
    assert_eq!(format_mod(0o777), "rwxrwxrwx");
    assert_eq!(format_mod(0o775), "rwxrwxr-x");
    assert_eq!(format_mod(0o755), "rwxr-xr-x");
    assert_eq!(format_mod(0o664), "rw-rw-r--");
    assert_eq!(format_mod(0o421), "r---w---x");
}
