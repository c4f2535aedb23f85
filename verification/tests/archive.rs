use cpio_archive::cpio::archive::Cpio;
use cpio_archive::cpio::commands::{is_comment, split_args, CpioCommand, Outcome, RamdiskOp};
use cpio_archive::cpio::dump::{append_bytes, pad_to_4, write_record};
use cpio_archive::cpio::entry::{CpioEntry, EntryKind, S_IFBLK, S_IFCHR, S_IFDIR, S_IFLNK, S_IFREG};
use cpio_archive::cpio::error::CpioError;
use cpio_archive::cpio::extract::ExtractAction;
use cpio_archive::cpio::format::align_4;
use cpio_archive::cpio::header::{push_hex8, x8u, Header};
use cpio_archive::cpio::list::{format_entry, is_listed, push_decimal, slashes};
use cpio_archive::cpio::load::{advance, seek_magic};
use cpio_archive::cpio::ops::SourceKind;
use cpio_archive::cpio::path::norm_path;
use cpio_archive::order::{bytes_eq, bytes_lt, starts_with};

fn entry(mode: u32, data: &[u8]) -> CpioEntry {
    CpioEntry { mode, uid: 0, gid: 0, rdevmajor: 0, rdevminor: 0, data: data.to_vec() }
}

fn names(cpio: &Cpio) -> Vec<String> {
    let mut v = Vec::new();
    for i in 0..cpio.len() {
        v.push(cpio.name_at(i).to_string());
    }
    v
}

fn same_entries(a: &Cpio, b: &Cpio) -> bool {
    if a.len() != b.len() {
        return false;
    }
    for i in 0..a.len() {
        let (x, y) = (a.entry_at(i), b.entry_at(i));
        if a.name_at(i) != b.name_at(i)
            || x.mode != y.mode
            || x.uid != y.uid
            || x.gid != y.gid
            || x.rdevmajor != y.rdevmajor
            || x.rdevminor != y.rdevminor
            || x.data != y.data
        {
            return false;
        }
    }
    true
}

fn sample() -> Cpio {
    let mut cpio = Cpio::new();
    cpio.mkdir(0o755, "etc");
    cpio.add(0o644, "etc/fstab", SourceKind::Regular, 0, b"# none\n".to_vec()).unwrap();
    cpio.add(0o750, "init", SourceKind::Regular, 0, vec![0x7f, b'E', b'L', b'F', 0]).unwrap();
    cpio.ln("/init", "sbin/init");
    cpio.add(0o600, "dev/null", SourceKind::CharDevice, 0x103, Vec::new()).unwrap();
    cpio
}

fn header_text(ino: u32, mode: u32, filesize: u32, namesize: u32) -> String {
    format!(
        "070701{:08x}{:08x}{:08x}{:08x}{:08x}{:08x}{:08x}{:08x}{:08x}{:08x}{:08x}{:08x}{:08x}",
        ino, mode, 0, 0, 1, 0, filesize, 0, 0, 0, 0, namesize, 0
    )
}

#[test]
fn order_is_bytewise_lexicographic() {
    assert!(bytes_lt(b"a", b"a/b"));
    assert!(bytes_lt(b"a/b", b"a/bc"));
    assert!(bytes_lt(b"a/bc", b"ab"));
    assert!(bytes_lt(b"", b"a"));
    assert!(!bytes_lt(b"a", b"a"));
    assert!(!bytes_lt(b"b", b"a"));
    assert!(bytes_eq(b"abc", b"abc"));
    assert!(!bytes_eq(b"abc", b"abd"));
    assert!(!bytes_eq(b"abc", b"ab"));
    assert!(starts_with(b"a/b", b"a/"));
    assert!(!starts_with(b"ab", b"a/"));
    assert!(starts_with(b"a", b""));
    assert!(!starts_with(b"a", b"ab"));
}

#[test]
fn hex_field_round_trip() {
    let mut out = Vec::new();
    push_hex8(&mut out, 300000);
    assert_eq!(out, b"000493e0".to_vec());
    assert_eq!(x8u(&out), Ok(300000));
    let mut out = Vec::new();
    push_hex8(&mut out, 0xdeadbeef);
    assert_eq!(out, b"deadbeef".to_vec());
    assert_eq!(x8u(b"DEADbeef"), Ok(0xdeadbeef));
    assert_eq!(x8u(b"00000000"), Ok(0));
    assert_eq!(x8u(b"ffffffff"), Ok(u32::MAX));
}

#[test]
fn hex_field_rejects_other_bytes() {
    assert_eq!(x8u(b"0000000g"), Err(CpioError::BadHeader));
    assert_eq!(x8u(b" 0000001"), Err(CpioError::BadHeader));
    assert_eq!(x8u(b"0000\x0000a"), Err(CpioError::BadHeader));
    assert_eq!(x8u(&[0x30, 0x30, 0x30, 0x30, 0x30, 0x30, 0x30, 0xe9]), Err(CpioError::BadHeader));
}

#[test]
fn header_is_110_bytes_in_field_order() {
    let h = Header {
        ino: 1,
        mode: 2,
        uid: 3,
        gid: 4,
        nlink: 5,
        mtime: 6,
        filesize: 7,
        devmajor: 8,
        devminor: 9,
        rdevmajor: 10,
        rdevminor: 11,
        namesize: 12,
        check: 13,
    };
    let mut out = vec![b'!'];
    h.encode(&mut out);
    assert_eq!(out.len(), 111);
    let text = std::str::from_utf8(&out).unwrap();
    assert_eq!(
        text,
        "!07070100000001000000020000000300000004000000050000000600000007\
         00000008000000090000000a0000000b0000000c0000000d"
    );
}

#[test]
fn align_4_rounds_up() {
    assert_eq!(align_4(0), 0);
    assert_eq!(align_4(1), 4);
    assert_eq!(align_4(3), 4);
    assert_eq!(align_4(4), 4);
    assert_eq!(align_4(121), 124);
    assert_eq!(advance(110, 11, 124), Some(124));
    assert_eq!(advance(110, 11, 123), None);
    assert_eq!(advance(110, 2, 200), Some(112));
    assert_eq!(advance(8, u32::MAX, 200), None);
}

#[test]
fn padding_reaches_next_multiple_of_four() {
    for n in 0..9usize {
        let mut out = vec![7u8; n];
        pad_to_4(&mut out);
        assert_eq!(out.len(), (n + 3) / 4 * 4);
        assert!(out[..n].iter().all(|b| *b == 7));
        assert!(out[n..].iter().all(|b| *b == 0));
    }
    let mut out = vec![1u8];
    append_bytes(&mut out, b"xyz");
    assert_eq!(out, vec![1, b'x', b'y', b'z']);
}

#[test]
fn record_layout_is_exact() {
    let mut out = Vec::new();
    write_record(&mut out, 300000, b"ab", &entry(0o100644, b"hello"));
    let mut want = header_text(300000, 0o100644, 5, 3).into_bytes();
    want.extend_from_slice(b"ab\0");
    want.extend_from_slice(&[0, 0, 0]);
    want.extend_from_slice(b"hello\0\0\0");
    assert_eq!(out, want);
    assert_eq!(out.len() % 4, 0);
}

#[test]
fn empty_archive_is_one_trailer() {
    let cpio = Cpio::new();
    assert!(cpio.fits());
    let bytes = cpio.dump();
    let mut want = header_text(300000, 0o755, 0, 11).into_bytes();
    want.extend_from_slice(b"TRAILER!!!\0");
    want.extend_from_slice(&[0, 0, 0]);
    assert_eq!(bytes, want);
    assert_eq!(bytes.len(), 124);
    let back = Cpio::load_from_data(&bytes).unwrap();
    assert_eq!(back.len(), 0);
}

#[test]
fn empty_buffer_is_empty_archive() {
    let cpio = Cpio::load_from_data(&[]).unwrap();
    assert_eq!(cpio.len(), 0);
}

#[test]
fn entries_are_written_in_ascending_order_with_rising_inodes() {
    let mut cpio = Cpio::new();
    cpio.mkdir(0o755, "b");
    cpio.mkdir(0o700, "a");
    let bytes = cpio.dump();
    let mut want = header_text(300000, 0o40700, 0, 2).into_bytes();
    want.extend_from_slice(b"a\0");
    want.extend_from_slice(header_text(300001, 0o40755, 0, 2).as_bytes());
    want.extend_from_slice(b"b\0");
    want.extend_from_slice(header_text(300002, 0o755, 0, 11).as_bytes());
    want.extend_from_slice(b"TRAILER!!!\0\0\0\0");
    assert_eq!(bytes, want);
}

#[test]
fn mkdir_then_add_then_round_trip() {
    let mut cpio = Cpio::new();
    cpio.mkdir(0o755, "foo");
    cpio.add(0o644, "foo/bar.txt", SourceKind::Regular, 0, b"hi".to_vec()).unwrap();
    let bytes = cpio.dump();
    let back = Cpio::load_from_data(&bytes).unwrap();
    assert_eq!(back.len(), 2);
    assert_eq!(names(&back), vec!["foo".to_string(), "foo/bar.txt".to_string()]);
    let dir = back.get(b"foo").unwrap();
    assert_eq!(dir.mode, 0o40755);
    assert_eq!(dir.kind(), EntryKind::Directory);
    assert!(dir.data.is_empty());
    let file = back.get(b"foo/bar.txt").unwrap();
    assert_eq!(file.mode, 0o100644);
    assert_eq!(file.kind(), EntryKind::Regular);
    assert_eq!(file.data, b"hi".to_vec());
    assert_eq!((file.uid, file.gid, file.rdevmajor, file.rdevminor), (0, 0, 0, 0));
}

#[test]
fn round_trip_keeps_every_entry() {
    let cpio = sample();
    assert!(cpio.fits());
    let back = Cpio::load_from_data(&cpio.dump()).unwrap();
    assert!(same_entries(&cpio, &back));
    assert_eq!(
        names(&back),
        vec!["dev/null", "etc", "etc/fstab", "init", "sbin/init"]
            .into_iter()
            .map(String::from)
            .collect::<Vec<_>>()
    );
}

#[test]
fn round_trip_keeps_owner_and_device_numbers() {
    let mut cpio = Cpio::new();
    cpio.insert(
        "node".to_string(),
        CpioEntry {
            mode: S_IFBLK | 0o660,
            uid: 1000,
            gid: 2000,
            rdevmajor: 259,
            rdevminor: 0xfffff,
            data: Vec::new(),
        },
    );
    let back = Cpio::load_from_data(&cpio.dump()).unwrap();
    let e = back.get(b"node").unwrap();
    assert_eq!((e.mode, e.uid, e.gid), (S_IFBLK | 0o660, 1000, 2000));
    assert_eq!((e.rdevmajor, e.rdevminor), (259, 0xfffff));
}

#[test]
fn dump_is_idempotent_over_a_round_trip() {
    let first = sample().dump();
    let second = Cpio::load_from_data(&first).unwrap().dump();
    assert_eq!(first, second);
}

#[test]
fn every_record_ends_on_a_multiple_of_four() {
    let cpio = sample();
    let bytes = cpio.dump();
    assert_eq!(bytes.len() % 4, 0);
    let mut pos = 0usize;
    let mut records = 0;
    while pos < bytes.len() {
        assert_eq!(&bytes[pos..pos + 6], b"070701");
        let filesize = x8u(&bytes[pos + 54..pos + 62]).unwrap() as usize;
        let namesize = x8u(&bytes[pos + 94..pos + 102]).unwrap() as usize;
        let name_end = pos + 110 + namesize;
        let data_start = align_4(name_end);
        assert!(bytes[name_end..data_start].iter().all(|b| *b == 0));
        assert!(data_start - name_end < 4);
        let data_end = data_start + filesize;
        let next = align_4(data_end);
        assert!(bytes[data_end..next].iter().all(|b| *b == 0));
        assert!(next - data_end < 4);
        pos = next;
        records += 1;
    }
    assert_eq!(pos, bytes.len());
    assert_eq!(records, cpio.len() + 1);
}

#[test]
fn paths_are_normalized() {
    assert_eq!(norm_path("/foo/bar/"), "foo/bar");
    assert_eq!(norm_path("foo/bar"), "foo/bar");
    assert_eq!(norm_path("/foo/bar"), "foo/bar");
    assert_eq!(norm_path("foo/bar/"), "foo/bar");
    assert_eq!(norm_path("//foo//"), "/foo/");
    assert_eq!(norm_path("/"), "");
    assert_eq!(norm_path("//"), "");
    assert_eq!(norm_path(""), "");
    assert_eq!(norm_path("/\u{e9}t\u{e9}/"), "\u{e9}t\u{e9}");
}

#[test]
fn operations_address_the_normalized_key() {
    let mut a = Cpio::new();
    a.mkdir(0o755, "/foo/bar/");
    let mut b = Cpio::new();
    b.mkdir(0o755, "foo/bar");
    assert!(same_entries(&a, &b));
    assert_eq!(names(&a), vec!["foo/bar".to_string()]);
    assert!(a.entry_exists("foo/bar"));
    assert!(a.entry_exists("/foo/bar/"));

    let mut a = Cpio::new();
    a.add(0o644, "/foo/bar", SourceKind::Regular, 0, b"x".to_vec()).unwrap();
    assert_eq!(names(&a), vec!["foo/bar".to_string()]);
    a.ln("/t/", "/foo/bar/");
    assert_eq!(a.len(), 1);
    assert_eq!(a.get(b"foo/bar").unwrap().data, b"t".to_vec());
    a.mv("/foo/bar/", "/x/y/").unwrap();
    assert_eq!(names(&a), vec!["x/y".to_string()]);
}

#[test]
fn insert_replaces_entry_of_same_name() {
    let mut cpio = Cpio::new();
    cpio.add(0o644, "f", SourceKind::Regular, 0, b"old".to_vec()).unwrap();
    cpio.add(0o600, "f", SourceKind::Regular, 0, b"new".to_vec()).unwrap();
    assert_eq!(cpio.len(), 1);
    let e = cpio.get(b"f").unwrap();
    assert_eq!(e.mode, S_IFREG | 0o600);
    assert_eq!(e.data, b"new".to_vec());
}

#[test]
fn recursive_removal_matches_prefix_with_separator() {
    let mut cpio = Cpio::new();
    for name in ["a", "a/b", "a/bc", "ab", "a.txt", "b"] {
        cpio.mkdir(0o755, name);
    }
    cpio.rm("a", true);
    assert_eq!(
        names(&cpio),
        vec!["a.txt".to_string(), "ab".to_string(), "b".to_string()]
    );
}

#[test]
fn plain_removal_takes_only_the_exact_entry() {
    let mut cpio = Cpio::new();
    for name in ["a", "a/b", "a/bc", "ab"] {
        cpio.mkdir(0o755, name);
    }
    cpio.rm("/a/", false);
    assert_eq!(names(&cpio), vec!["a/b".to_string(), "a/bc".to_string(), "ab".to_string()]);
    cpio.rm("missing", true);
    assert_eq!(cpio.len(), 3);
    cpio.rm("a", true);
    assert_eq!(names(&cpio), vec!["ab".to_string()]);
}

#[test]
fn move_replaces_target_and_fails_on_missing_source() {
    let mut cpio = Cpio::new();
    cpio.add(0o644, "src", SourceKind::Regular, 0, b"1".to_vec()).unwrap();
    cpio.add(0o644, "dst", SourceKind::Regular, 0, b"2".to_vec()).unwrap();
    assert_eq!(cpio.mv("nope", "dst"), Err(CpioError::NoSuchEntry));
    assert_eq!(cpio.len(), 2);
    assert_eq!(cpio.get(b"dst").unwrap().data, b"2".to_vec());
    assert_eq!(cpio.mv("src", "dst"), Ok(()));
    assert_eq!(names(&cpio), vec!["dst".to_string()]);
    assert_eq!(cpio.get(b"dst").unwrap().data, b"1".to_vec());
}

#[test]
fn link_stores_type_marker_and_normalized_target() {
    let mut cpio = Cpio::new();
    cpio.ln("/data/target", "newlink");
    assert!(cpio.entry_exists("newlink"));
    let e = cpio.get(b"newlink").unwrap();
    assert_eq!(e.mode, S_IFLNK);
    assert_eq!(e.data, b"data/target".to_vec());
    let lines = cpio.ls("", true);
    assert!(lines.iter().any(|l| l.ends_with("\tnewlink")));
    assert_eq!(lines, vec!["l---------\t0\t0\t11 B\t0:0\tnewlink".to_string()]);
}

#[test]
fn add_sets_type_bits_and_device_numbers() {
    let mut cpio = Cpio::new();
    cpio.add(0o660, "blk", SourceKind::BlockDevice, 0x801, Vec::new()).unwrap();
    cpio.add(0o666, "chr", SourceKind::CharDevice, 0x0000_1234_5678_9abc, Vec::new()).unwrap();
    let b = cpio.get(b"blk").unwrap();
    assert_eq!(b.mode, S_IFBLK | 0o660);
    assert_eq!((b.rdevmajor, b.rdevminor), (8, 1));
    let c = cpio.get(b"chr").unwrap();
    assert_eq!(c.mode, S_IFCHR | 0o666);
    assert_eq!(c.rdevmajor, 0x0000_189a);
    assert_eq!(c.rdevminor, 0x2345_67bc);
}

#[test]
fn add_rejects_trailing_separator_and_other_kinds() {
    let mut cpio = Cpio::new();
    assert_eq!(
        cpio.add(0o644, "dir/", SourceKind::Regular, 0, Vec::new()),
        Err(CpioError::PathEndsWithSlash)
    );
    assert_eq!(
        cpio.add(0o644, "dir", SourceKind::Other, 0, Vec::new()),
        Err(CpioError::UnsupportedFileType)
    );
    assert_eq!(
        cpio.add(0o644, "dir/", SourceKind::Other, 0, Vec::new()),
        Err(CpioError::PathEndsWithSlash)
    );
    assert_eq!(cpio.len(), 0);
}

#[test]
fn concatenated_archives_parse_to_their_union() {
    let mut first = Cpio::new();
    first.add(0o644, "a", SourceKind::Regular, 0, b"first".to_vec()).unwrap();
    first.add(0o644, "only1", SourceKind::Regular, 0, b"070701".to_vec()).unwrap();
    let mut second = Cpio::new();
    second.add(0o600, "a", SourceKind::Regular, 0, b"second".to_vec()).unwrap();
    second.mkdir(0o755, "only2");
    let mut bytes = first.dump();
    bytes.extend_from_slice(&[0u8; 388]);
    bytes.extend_from_slice(b"garbage 0707 07070  ");
    bytes.extend_from_slice(&second.dump());
    let both = Cpio::load_from_data(&bytes).unwrap();
    assert_eq!(names(&both), vec!["a".to_string(), "only1".to_string(), "only2".to_string()]);
    assert_eq!(both.get(b"a").unwrap().data, b"second".to_vec());
    assert_eq!(both.get(b"a").unwrap().mode, S_IFREG | 0o600);
    assert_eq!(both.get(b"only1").unwrap().data, b"070701".to_vec());
    assert_eq!(both.get(b"only2").unwrap().mode, S_IFDIR | 0o755);
}

#[test]
fn trailing_bytes_without_magic_are_ignored() {
    let mut bytes = sample().dump();
    bytes.extend_from_slice(&[0u8; 7]);
    let back = Cpio::load_from_data(&bytes).unwrap();
    assert!(same_entries(&back, &sample()));
    assert_eq!(seek_magic(b"xx070701", 0), Some(2));
    assert_eq!(seek_magic(b"xx070701", 3), None);
    assert_eq!(seek_magic(b"07070", 0), None);
}

#[test]
fn dot_entries_are_passed_over() {
    let mut bytes = header_text(1, 0o40755, 0, 2).into_bytes();
    bytes.extend_from_slice(b".\0");
    bytes.extend_from_slice(header_text(2, 0o40755, 0, 3).as_bytes());
    bytes.extend_from_slice(b"..\0");
    bytes.extend_from_slice(&[0, 0, 0]);
    bytes.extend_from_slice(header_text(3, 0o100644, 1, 2).as_bytes());
    bytes.extend_from_slice(b"f\0x\0\0\0");
    let cpio = Cpio::load_from_data(&bytes).unwrap();
    assert_eq!(names(&cpio), vec!["f".to_string()]);
    assert_eq!(cpio.get(b"f").unwrap().data, b"x".to_vec());
}

#[test]
fn later_duplicate_wins_on_load() {
    let mut bytes = Vec::new();
    write_record(&mut bytes, 1, b"f", &entry(0o100644, b"one"));
    write_record(&mut bytes, 2, b"f", &entry(0o100600, b"two"));
    let cpio = Cpio::load_from_data(&bytes).unwrap();
    assert_eq!(cpio.len(), 1);
    assert_eq!(cpio.get(b"f").unwrap().data, b"two".to_vec());
    assert_eq!(cpio.get(b"f").unwrap().mode, 0o100600);
}

#[test]
fn load_reports_each_malformation() {
    let err = |bytes: &[u8]| Cpio::load_from_data(bytes).err();
    assert_eq!(err(b"07070"), Some(CpioError::TruncatedHeader));
    let good = {
        let mut b = Vec::new();
        write_record(&mut b, 1, b"name", &entry(0o100644, b"payload"));
        b
    };
    assert!(Cpio::load_from_data(&good).is_ok());
    assert_eq!(err(&good[..109]), Some(CpioError::TruncatedHeader));
    let mut bad = good.clone();
    bad[5] = b'2';
    assert_eq!(err(&bad), Some(CpioError::InvalidMagic));
    assert_eq!(err(&good[..112]), Some(CpioError::UnterminatedName));
    let mut bad = good.clone();
    bad[111] = 0xff;
    assert_eq!(err(&bad), Some(CpioError::InvalidName));
    let mut bad = good.clone();
    bad[6 + 8 * 11] = b'x';
    assert_eq!(err(&bad), Some(CpioError::BadHeader));
    let mut bad = good.clone();
    bad[6 + 8 * 6 + 7] = b'-';
    assert_eq!(err(&bad), Some(CpioError::BadHeader));
    let mut bad = good.clone();
    bad[6 + 8] = b'G';
    assert_eq!(err(&bad), Some(CpioError::BadHeader));
    assert_eq!(err(&good[..good.len() - 2]), Some(CpioError::TruncatedData));
    assert_eq!(err(&good[..116]), Some(CpioError::TruncatedData));
    let mut ok = good.clone();
    ok[6] = b'z';
    ok[6 + 8 * 4] = b'z';
    ok[6 + 8 * 12] = b'z';
    assert!(Cpio::load_from_data(&ok).is_ok());
}

#[test]
fn entry_text_is_exact() {
    let e = CpioEntry {
        mode: S_IFREG | 0o754,
        uid: 1000,
        gid: 0,
        rdevmajor: 8,
        rdevminor: 17,
        data: Vec::new(),
    };
    assert_eq!(format_entry(&e, "4.10 KB"), "-rwxr-xr--\t1000\t0\t4.10 KB\t8:17");
    let dir = entry(S_IFDIR | 0o755, b"");
    assert_eq!(dir.render(), "drwxr-xr-x\t0\t0\t0 B\t0:0");
    assert_eq!(entry(S_IFLNK | 0o777, b"x").render(), "lrwxrwxrwx\t0\t0\t1 B\t0:0");
    assert_eq!(entry(S_IFBLK, &[0; 1500]).render(), "b---------\t0\t0\t1.50 KB\t0:0");
    assert_eq!(entry(S_IFCHR | 0o222, &[0; 999]).render(), "c-w--w--w-\t0\t0\t999 B\t0:0");
    assert_eq!(entry(0o010644, b"").render(), "?rw-r--r--\t0\t0\t0 B\t0:0");
    let mut s = String::from("n=");
    push_decimal(&mut s, 0);
    push_decimal(&mut s, 4294967295);
    push_decimal(&mut s, 10);
    assert_eq!(s, "n=0429496729510");
}

#[test]
fn listing_respects_separators_and_depth() {
    assert_eq!(slashes(b"/a/b//"), 4);
    assert_eq!(slashes(b""), 0);
    assert!(is_listed(b"foo", b"", false));
    assert!(!is_listed(b"foo/bar", b"", false));
    assert!(is_listed(b"foo/bar", b"", true));
    assert!(is_listed(b"foo", b"foo", false));
    assert!(is_listed(b"foo/bar", b"foo", false));
    assert!(!is_listed(b"foo/bar/baz", b"foo", false));
    assert!(is_listed(b"foo/bar/baz", b"foo", true));
    assert!(!is_listed(b"foobar", b"foo", true));
    assert!(!is_listed(b"fo", b"foo", true));
    let mut cpio = Cpio::new();
    for name in ["foo", "foo/bar", "foo/bar/baz", "foobar", "x"] {
        cpio.mkdir(0o700, name);
    }
    let tail = |lines: Vec<String>| -> Vec<String> {
        lines.iter().map(|l| l.rsplit('\t').next().unwrap().to_string()).collect()
    };
    assert_eq!(tail(cpio.ls("/", false)), vec!["foo", "foobar", "x"]);
    assert_eq!(tail(cpio.ls("/foo/", false)), vec!["foo", "foo/bar"]);
    assert_eq!(tail(cpio.ls("foo", true)), vec!["foo", "foo/bar", "foo/bar/baz"]);
    assert_eq!(tail(cpio.ls("", true)).len(), 5);
    assert_eq!(cpio.ls("x", false), vec!["drwx------\t0\t0\t0 B\t0:0\tx".to_string()]);
}

#[test]
fn extraction_plans_one_action_per_entry() {
    let mut cpio = sample();
    cpio.mkdir(0o755, ".");
    cpio.add(0o660, "dev/sda", SourceKind::BlockDevice, 0x800, Vec::new()).unwrap();
    let steps = cpio.extract(None, None).unwrap();
    let outs: Vec<&str> = steps.iter().map(|s| s.out.as_str()).collect();
    assert_eq!(outs, vec!["dev/null", "dev/sda", "etc", "etc/fstab", "init", "sbin/init"]);
    assert!(matches!(steps[0].action, ExtractAction::MakeNode { mode, dev } if mode == S_IFCHR | 0o600 && dev == 0x103));
    assert!(matches!(steps[1].action, ExtractAction::MakeNode { mode, dev } if mode == S_IFBLK | 0o660 && dev == 0x800));
    assert!(matches!(steps[2].action, ExtractAction::MakeDir { mode: 0o755 }));
    assert!(matches!(&steps[3].action, ExtractAction::WriteFile { data } if data == b"# none\n"));
    assert!(matches!(&steps[5].action, ExtractAction::Symlink { target } if target == "init"));
    let one = cpio.extract(Some("/etc/"), None).unwrap();
    assert_eq!(one.len(), 6);
}

#[test]
fn extraction_of_one_entry_goes_to_the_destination() {
    let cpio = sample();
    let steps = cpio.extract(Some("/etc/fstab"), Some("/tmp/out/fstab")).unwrap();
    assert_eq!(steps.len(), 1);
    assert_eq!(steps[0].out, "/tmp/out/fstab");
    assert!(matches!(&steps[0].action, ExtractAction::WriteFile { data } if data == b"# none\n"));
    assert_eq!(cpio.extract(Some("missing"), Some("x")).err(), Some(CpioError::NoSuchFile));
    assert_eq!(cpio.extract_entry("/etc", "x").err(), Some(CpioError::NoSuchFile));
    assert!(cpio.extract_entry("etc", "x").is_ok());
}

#[test]
fn extraction_stops_at_the_first_failure() {
    let mut cpio = Cpio::new();
    cpio.mkdir(0o755, "a");
    cpio.insert("b".to_string(), entry(0o010644, b""));
    cpio.mkdir(0o755, "c");
    let steps = cpio.extract_all();
    assert_eq!(steps.len(), 2);
    assert!(matches!(steps[0].action, ExtractAction::MakeDir { mode: 0o755 }));
    assert!(matches!(
        steps[1].action,
        ExtractAction::Fail { error: CpioError::UnknownEntryType }
    ));
    let link = entry(S_IFLNK, &[0xff, 0xfe]);
    assert!(matches!(
        link.action(),
        ExtractAction::Fail { error: CpioError::InvalidLinkTarget }
    ));
    let dir = entry(S_IFDIR | 0o4755, b"");
    assert!(matches!(dir.action(), ExtractAction::MakeDir { mode: 0o755 }));
}

#[test]
fn device_identifier_packs_major_and_minor() {
    let node = CpioEntry {
        mode: S_IFCHR | 0o600,
        uid: 0,
        gid: 0,
        rdevmajor: 0x189a,
        rdevminor: 0x2345_67bc,
        data: Vec::new(),
    };
    assert!(matches!(
        node.action(),
        ExtractAction::MakeNode { dev: 0x0000_1234_5678_9abc, .. }
    ));
}

#[test]
fn lines_are_cut_at_spaces() {
    assert_eq!(split_args("add 644  foo/bar  file"), vec!["add", "644", "foo/bar", "file"]);
    assert_eq!(split_args("  ls  "), vec!["ls"]);
    assert_eq!(split_args(""), Vec::<String>::new());
    assert_eq!(split_args("   "), Vec::<String>::new());
    assert_eq!(split_args("mkdir 755 d\u{e9}j\u{e0}\tvu"), vec!["mkdir", "755", "d\u{e9}j\u{e0}\tvu"]);
    assert!(is_comment("# rm -r x"));
    assert!(is_comment("#"));
    assert!(!is_comment(" # rm"));
    assert!(!is_comment(""));
}

#[test]
fn commands_change_the_archive_or_ask_the_caller() {
    let mut cpio = Cpio::new();
    let run = |cpio: &mut Cpio, c: CpioCommand| cpio.run(&c);
    assert!(matches!(
        run(&mut cpio, CpioCommand::MakeDir { mode: 0o755, dir: "d".into() }),
        Ok(Outcome::Continue)
    ));
    assert!(matches!(
        run(&mut cpio, CpioCommand::Link { src: "d".into(), dst: "l".into() }),
        Ok(Outcome::Continue)
    ));
    assert!(matches!(
        run(&mut cpio, CpioCommand::Exists { path: "/d/".into() }),
        Ok(Outcome::Exit { code: 0 })
    ));
    assert!(matches!(
        run(&mut cpio, CpioCommand::Exists { path: "e".into() }),
        Ok(Outcome::Exit { code: 1 })
    ));
    assert!(matches!(
        run(&mut cpio, CpioCommand::Move { from: "l".into(), to: "m".into() }),
        Ok(Outcome::Continue)
    ));
    assert!(matches!(
        run(&mut cpio, CpioCommand::Move { from: "l".into(), to: "m".into() }),
        Err(CpioError::NoSuchEntry)
    ));
    assert_eq!(names(&cpio), vec!["d".to_string(), "m".to_string()]);
    match run(&mut cpio, CpioCommand::List { path: "/".into(), recursive: false }) {
        Ok(Outcome::Print { lines }) => assert_eq!(lines.len(), 2),
        other => panic!("{:?}", other),
    }
    match run(&mut cpio, CpioCommand::Add { mode: 0o644, path: "f".into(), file: "/etc/x".into() }) {
        Ok(Outcome::ReadFile { mode, path, file }) => {
            assert_eq!((mode, path.as_str(), file.as_str()), (0o644, "f", "/etc/x"))
        }
        other => panic!("{:?}", other),
    }
    assert!(matches!(
        run(&mut cpio, CpioCommand::Add { mode: 0o644, path: "f/".into(), file: "x".into() }),
        Err(CpioError::PathEndsWithSlash)
    ));
    assert!(matches!(
        run(&mut cpio, CpioCommand::Extract { paths: vec!["d".into()] }),
        Err(CpioError::InvalidArguments)
    ));
    assert!(matches!(
        run(&mut cpio, CpioCommand::Extract { paths: vec!["q".into(), "o".into()] }),
        Err(CpioError::NoSuchFile)
    ));
    match run(&mut cpio, CpioCommand::Extract { paths: vec![] }) {
        Ok(Outcome::Extract { steps }) => assert_eq!(steps.len(), 2),
        other => panic!("{:?}", other),
    }
    match run(&mut cpio, CpioCommand::Extract { paths: vec!["/m".into(), "out".into()] }) {
        Ok(Outcome::Extract { steps }) => {
            assert_eq!(steps.len(), 1);
            assert_eq!(steps[0].out, "out");
        }
        other => panic!("{:?}", other),
    }
    assert!(matches!(
        run(&mut cpio, CpioCommand::Test),
        Ok(Outcome::Ramdisk { op: RamdiskOp::Test })
    ));
    assert!(matches!(
        run(&mut cpio, CpioCommand::Restore),
        Ok(Outcome::Ramdisk { op: RamdiskOp::Restore })
    ));
    assert!(matches!(
        run(&mut cpio, CpioCommand::Patch),
        Ok(Outcome::Ramdisk { op: RamdiskOp::Patch })
    ));
    match run(&mut cpio, CpioCommand::Backup { origin: "orig.cpio".into() }) {
        Ok(Outcome::Ramdisk { op: RamdiskOp::Backup { origin } }) => assert_eq!(origin, "orig.cpio"),
        other => panic!("{:?}", other),
    }
    assert!(matches!(
        run(&mut cpio, CpioCommand::Remove { path: "d".into(), recursive: true }),
        Ok(Outcome::Continue)
    ));
    assert_eq!(names(&cpio), vec!["m".to_string()]);
}

#[test]
fn every_error_has_its_message() {
    assert_eq!(CpioError::InvalidMagic.message(), "invalid cpio magic");
    assert_eq!(CpioError::BadHeader.message(), "bad cpio header");
    assert_eq!(CpioError::NoSuchFile.message(), "No such file");
    assert_eq!(CpioError::NoSuchEntry.message(), "no such entry");
    assert_eq!(CpioError::UnknownEntryType.message(), "unknown entry type");
    assert_eq!(CpioError::UnsupportedFileType.message(), "unsupported file type");
    assert_eq!(CpioError::PathEndsWithSlash.message(), "path cannot end with / for add");
    assert_eq!(CpioError::InvalidArguments.message(), "invalid arguments");
    assert_eq!(CpioError::TruncatedHeader.message(), "truncated cpio header");
    assert_eq!(CpioError::UnterminatedName.message(), "unterminated entry name");
    assert_eq!(CpioError::InvalidName.message(), "entry name is not UTF-8");
    assert_eq!(CpioError::TruncatedData.message(), "truncated entry data");
    assert_eq!(CpioError::InvalidLinkTarget.message(), "symlink target is not UTF-8");
}

#[test]
fn search_finds_entry_or_insertion_point() {
    let cpio = sample();
    assert_eq!(cpio.search(b"etc"), (true, 1));
    assert_eq!(cpio.search(b"a"), (false, 0));
    assert_eq!(cpio.search(b"etc/"), (false, 2));
    assert_eq!(cpio.search(b"zzz"), (false, 5));
    let init = cpio.get(b"init").unwrap();
    assert_eq!(init.data, vec![0x7f, b'E', b'L', b'F', 0]);
    assert_eq!(init.mode, S_IFREG | 0o750);
    assert!(cpio.get(b"/init").is_none());
}

#[test]
fn remove_under_takes_every_name_with_the_prefix() {
    let mut cpio = sample();
    cpio.remove_under(b"e");
    assert_eq!(names(&cpio), vec!["dev/null".to_string(), "init".to_string(), "sbin/init".to_string()]);
    assert!(cpio.remove(b"init").is_some());
    assert!(cpio.remove(b"init").is_none());
    cpio.remove_under(b"");
    assert_eq!(cpio.len(), 0);
}
