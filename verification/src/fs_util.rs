//! File attribute records and the content fingerprint.
//!
//! A [`FileInfo`] holds what one tracked file looked like at snapshot
//! time: its path, modification time in seconds, raw permission bits,
//! and a fingerprint of its byte content. The fingerprint is a fast
//! non-cryptographic hash (64-bit FNV-1a) used only to detect whether a
//! file's bytes changed between snapshot and restore.

use vstd::prelude::*;

use crate::text::{from_chars, u64_dec_str, u64_to_dec};

verus! {

/// FNV-1a 64-bit offset basis.
pub const FNV_OFFSET_BASIS: u64 = 0xcbf29ce484222325;

/// FNV-1a 64-bit prime.
pub const FNV_PRIME: u64 = 0x100000001b3;

pub open spec fn fnv1a_step(h: u64, b: u8) -> u64 {
    vstd::wrapping::u64_specs::wrapping_mul(h ^ (b as u64), FNV_PRIME)
}

pub open spec fn fnv1a_from(h: u64, bytes: Seq<u8>) -> u64
    decreases bytes.len(),
{
    if bytes.len() == 0 {
        h
    } else {
        fnv1a_from(fnv1a_step(h, bytes[0]), bytes.drop_first())
    }
}

/// The 64-bit FNV-1a hash of a byte sequence.
pub open spec fn fnv1a(bytes: Seq<u8>) -> u64 {
    fnv1a_from(FNV_OFFSET_BASIS, bytes)
}

/// The fingerprint as persisted: the decimal rendering of the hash.
pub open spec fn fingerprint_str(content: Seq<u8>) -> Seq<char> {
    u64_dec_str(fnv1a(content) as nat)
}

/// Hash of a file's full byte content, rendered in decimal. Cheap
/// change detection only; no collision resistance is claimed.
pub fn file_content_hash(content: &Vec<u8>) -> (h: String)
    ensures
        h@ == fingerprint_str(content@),
{
    let ghost s = content@;
    let mut acc: u64 = FNV_OFFSET_BASIS;
    let mut i: usize = 0;
    assert(s.skip(0) =~= s);
    while i < content.len()
        invariant
            0 <= i <= content.len(),
            s == content@,
            fnv1a(s) == fnv1a_from(acc, s.skip(i as int)),
        decreases content.len() - i,
    {
        assert(s.skip(i as int)[0] == s[i as int]);
        assert(s.skip(i as int).drop_first() =~= s.skip(i + 1));
        acc = (acc ^ (content[i] as u64)).wrapping_mul(FNV_PRIME);
        i = i + 1;
    }
    assert(s.skip(i as int) =~= Seq::<u8>::empty());
    let digits = u64_to_dec(acc);
    from_chars(&digits)
}

/// Attributes of one tracked file at snapshot time.
#[derive(Debug, Clone, PartialEq, Eq)]
pub struct FileInfo {
    pub file: String,
    pub mtime_seconds: i64,
    pub mode: u32,
    pub hash: String,
}

/// Mathematical model of a [`FileInfo`] record.
#[verifier::ext_equal]
pub struct FileInfoV {
    pub file: Seq<char>,
    pub mtime_seconds: i64,
    pub mode: u32,
    pub hash: Seq<char>,
}

impl View for FileInfo {
    type V = FileInfoV;

    open spec fn view(&self) -> FileInfoV {
        FileInfoV {
            file: self.file@,
            mtime_seconds: self.mtime_seconds,
            mode: self.mode,
            hash: self.hash@,
        }
    }
}

impl DeepView for FileInfo {
    type V = FileInfoV;

    open spec fn deep_view(&self) -> FileInfoV {
        self.view()
    }
}

/// The record a snapshot produces for a file with the given path,
/// modification time, permission bits and byte content.
pub open spec fn snapshot_record(
    file: Seq<char>,
    mtime_seconds: i64,
    mode: u32,
    content: Seq<u8>,
) -> FileInfoV {
    FileInfoV { file, mtime_seconds, mode, hash: fingerprint_str(content) }
}

/// Build the snapshot record of one file from its attributes and bytes.
pub fn make_file_info(file: String, mtime_seconds: i64, mode: u32, content: &Vec<u8>) -> (info:
    FileInfo)
    ensures
        info@ == snapshot_record(file@, mtime_seconds, mode, content@),
{
    FileInfo { file, mtime_seconds, mode, hash: file_content_hash(content) }
}


// ---------------------------------------------------------------------
// File listings
// ---------------------------------------------------------------------

/// One line of an enumeration output: the characters before the next
/// newline, and the position of that newline (or the text's end).
pub open spec fn take_line(s: Seq<char>, i: int) -> (Seq<char>, int)
    decreases s.len() - i,
{
    if i >= s.len() {
        (Seq::empty(), i)
    } else if s[i] == '\n' {
        (Seq::empty(), i)
    } else {
        let (rest, j) = take_line(s, i + 1);
        (seq![s[i]] + rest, j)
    }
}

/// The nonempty newline-separated lines of `s` from position `i` on.
pub open spec fn split_lines_from(s: Seq<char>, i: int) -> Seq<Seq<char>>
    decreases s.len() - i,
{
    if i >= s.len() {
        Seq::empty()
    } else {
        let (line, j) = take_line(s, i);
        if j >= s.len() || j < i {
            if line.len() == 0 {
                Seq::empty()
            } else {
                seq![line]
            }
        } else {
            let rest = split_lines_from(s, j + 1);
            if line.len() == 0 {
                rest
            } else {
                seq![line] + rest
            }
        }
    }
}

/// A leading `./`, as a filesystem walk prints it, removed.
pub open spec fn strip_dot_slash(line: Seq<char>) -> Seq<char> {
    if line.len() >= 2 && line[0] == '.' && line[1] == '/' {
        line.skip(2)
    } else {
        line
    }
}

pub open spec fn strip_all(lines: Seq<Seq<char>>) -> Seq<Seq<char>> {
    lines.map_values(|line: Seq<char>| strip_dot_slash(line))
}

/// The paths a file enumeration output names: its nonempty lines, each
/// with a leading `./` removed when `strip_dot` is set.
pub open spec fn file_listing_spec(s: Seq<char>, strip_dot: bool) -> Seq<Seq<char>> {
    if strip_dot {
        strip_all(split_lines_from(s, 0))
    } else {
        split_lines_from(s, 0)
    }
}

fn take_line_exec(s: &Vec<char>, i: usize) -> (r: (Vec<char>, usize))
    requires
        i <= s.len(),
    ensures
        take_line(s@, i as int) == (r.0@, r.1 as int),
        i <= r.1 <= s.len(),
    decreases s.len() - i,
{
    if i == s.len() {
        let empty: Vec<char> = Vec::new();
        assert(empty@ =~= Seq::<char>::empty());
        return (empty, i);
    }
    let c = s[i];
    if c == '\n' {
        let empty: Vec<char> = Vec::new();
        assert(empty@ =~= Seq::<char>::empty());
        return (empty, i);
    }
    let (mut rest, j) = take_line_exec(s, i + 1);
    let ghost tail = rest@;
    rest.insert(0, c);
    assert(rest@ =~= seq![s@[i as int]] + tail);
    (rest, j)
}

fn split_lines_exec(s: &Vec<char>, i: usize) -> (r: Vec<String>)
    requires
        i <= s.len(),
    ensures
        r.deep_view() == split_lines_from(s@, i as int),
    decreases s.len() - i,
{
    if i == s.len() {
        let empty: Vec<String> = Vec::new();
        assert(empty.deep_view() =~= Seq::<Seq<char>>::empty());
        return empty;
    }
    let (line, j) = take_line_exec(s, i);
    if j == s.len() {
        // The text ends without a trailing newline.
        let mut out: Vec<String> = Vec::new();
        assert(out.deep_view() =~= Seq::<Seq<char>>::empty());
        if line.len() > 0 {
            let ghost empty = out.deep_view();
            out.push(from_chars(&line));
            assert(out.deep_view() =~= seq![line@] + empty);
        } else {
            assert(line@ =~= Seq::<char>::empty());
        }
        return out;
    }
    let mut rest = split_lines_exec(s, j + 1);
    if line.len() == 0 {
        assert(line@ =~= Seq::<char>::empty());
        rest
    } else {
        let ghost tail = rest.deep_view();
        let line_s = from_chars(&line);
        rest.insert(0, line_s);
        assert(rest.deep_view() =~= seq![line@] + tail);
        rest
    }
}

fn strip_dot_slash_exec(line: &String) -> (r: String)
    ensures
        r@ == strip_dot_slash(line@),
{
    let chars = crate::text::to_chars(line.as_str());
    if chars.len() >= 2 && chars[0] == '.' && chars[1] == '/' {
        let mut out: Vec<char> = Vec::new();
        let mut k: usize = 2;
        while k < chars.len()
            invariant
                2 <= k <= chars@.len(),
                chars@ == line@,
                chars@.len() >= 2,
                out@ =~= line@.skip(2).take(k - 2),
            decreases chars.len() - k,
        {
            out.push(chars[k]);
            assert(out@ =~= line@.skip(2).take(k - 1));
            k = k + 1;
        }
        assert(out@ =~= line@.skip(2));
        from_chars(&out)
    } else {
        line.clone()
    }
}

/// The file paths named by an enumeration command's output: one per
/// nonempty line, with any leading `./` removed when `strip_dot` is
/// set (a filesystem walk prints paths that way; a version-control
/// listing does not).
pub fn parse_file_listing(text: &str, strip_dot: bool) -> (v: Vec<String>)
    ensures
        v.deep_view() == file_listing_spec(text@, strip_dot),
{
    let chars = crate::text::to_chars(text);
    let lines = split_lines_exec(&chars, 0);
    if !strip_dot {
        return lines;
    }
    let ghost lvs = lines.deep_view();
    let mut out: Vec<String> = Vec::new();
    let mut i: usize = 0;
    while i < lines.len()
        invariant
            0 <= i <= lines.len(),
            lvs == lines.deep_view(),
            lvs.len() == lines@.len(),
            lvs == split_lines_from(text@, 0),
            out.deep_view() =~= strip_all(lvs).take(i as int),
        decreases lines.len() - i,
    {
        assert(lvs[i as int] == lines@[i as int]@);
        let ghost before = out.deep_view();
        out.push(strip_dot_slash_exec(&lines[i]));
        assert(out.deep_view() =~= before.push(strip_dot_slash(lvs[i as int])));
        assert(strip_all(lvs)[i as int] == strip_dot_slash(lvs[i as int]));
        assert(out.deep_view() =~= strip_all(lvs).take(i + 1));
        i = i + 1;
    }
    assert(strip_all(lvs).take(i as int) =~= strip_all(lvs));
    out
}

} // verus!
