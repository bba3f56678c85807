//! The persisted file-attribute table.
//!
//! The on-disk contract is a tabular UTF-8 file with the header row
//! `file,mtime_seconds,mode,hash` and one data row per tracked file,
//! rows terminated by a newline. A field holding a comma, quote,
//! carriage return or newline is written quoted, with inner quotes
//! doubled. The encoder and the parser here are exact inverses, and
//! the restore planner decides, per record, whether the stored
//! attributes may be replayed.

use vstd::prelude::*;

use crate::CacheError;
use crate::fs_util::{file_content_hash, fingerprint_str, fnv1a, snapshot_record, FileInfo, FileInfoV};
use crate::text::{
    all_digits, digit_val, from_chars, i64_dec_str, is_digit, lemma_parse_i64_of_dec,
    lemma_parse_u32_of_dec, lemma_u64_dec_str_injective, lemma_u64_dec_str_props, parse_i64_chars,
    parse_i64_spec, parse_u32_chars, parse_u32_spec, to_chars, u64_dec_str, u64_to_dec, i64_to_dec,
};

verus! {

// ---------------------------------------------------------------------
// Encoding
// ---------------------------------------------------------------------

pub open spec fn is_special_char(c: char) -> bool {
    c == ',' || c == '"' || c == '\n' || c == '\r'
}

/// A field is quoted exactly when it holds a delimiter, quote or line
/// break.
pub open spec fn field_needs_quoting(f: Seq<char>) -> bool {
    exists|i: int| 0 <= i < f.len() && is_special_char(#[trigger] f[i])
}

/// How one character is written inside a quoted field.
pub open spec fn esc_char(c: char) -> Seq<char> {
    if c == '"' {
        seq!['"', '"']
    } else {
        seq![c]
    }
}

/// The body of a quoted field: every quote doubled.
pub open spec fn escape_quotes(f: Seq<char>) -> Seq<char>
    decreases f.len(),
{
    if f.len() == 0 {
        Seq::empty()
    } else {
        escape_quotes(f.drop_last()) + esc_char(f.last())
    }
}

pub open spec fn enc_field(f: Seq<char>) -> Seq<char> {
    if field_needs_quoting(f) {
        seq!['"'] + escape_quotes(f) + seq!['"']
    } else {
        f
    }
}

/// One data row: the four fields in column order, newline-terminated.
pub open spec fn enc_record(r: FileInfoV) -> Seq<char> {
    enc_field(r.file) + seq![','] + i64_dec_str(r.mtime_seconds as int) + seq![','] + u64_dec_str(
        r.mode as nat,
    ) + seq![','] + enc_field(r.hash) + seq!['\n']
}

pub open spec fn header_chars() -> Seq<char> {
    seq![
        'f', 'i', 'l', 'e', ',', 'm', 't', 'i', 'm', 'e', '_', 's', 'e', 'c', 'o', 'n', 'd', 's',
        ',', 'm', 'o', 'd', 'e', ',', 'h', 'a', 's', 'h', '\n',
    ]
}

pub open spec fn enc_records(rs: Seq<FileInfoV>) -> Seq<char>
    decreases rs.len(),
{
    if rs.len() == 0 {
        Seq::empty()
    } else {
        enc_records(rs.drop_last()) + enc_record(rs.last())
    }
}

/// The whole persisted table: header, then one row per record in order.
pub open spec fn encode_table_spec(rs: Seq<FileInfoV>) -> Seq<char> {
    header_chars() + enc_records(rs)
}

fn field_needs_quoting_exec(chars: &Vec<char>) -> (r: bool)
    ensures
        r == field_needs_quoting(chars@),
{
    let mut i: usize = 0;
    while i < chars.len()
        invariant
            0 <= i <= chars@.len(),
            forall|j: int| 0 <= j < i ==> !is_special_char(#[trigger] chars@[j]),
        decreases chars.len() - i,
    {
        let c = chars[i];
        if c == ',' || c == '"' || c == '\n' || c == '\r' {
            assert(is_special_char(chars@[i as int]));
            return true;
        }
        i = i + 1;
    }
    false
}

fn push_field(out: &mut Vec<char>, f: &String)
    ensures
        final(out)@ == old(out)@ + enc_field(f@),
{
    let ghost base = out@;
    let chars = to_chars(f.as_str());
    if field_needs_quoting_exec(&chars) {
        out.push('"');
        let mut i: usize = 0;
        assert(escape_quotes(f@.take(0)) =~= Seq::<char>::empty());
        assert(out@ =~= base + seq!['"'] + escape_quotes(f@.take(0)));
        while i < chars.len()
            invariant
                0 <= i <= chars@.len(),
                chars@ == f@,
                out@ =~= base + seq!['"'] + escape_quotes(f@.take(i as int)),
            decreases chars.len() - i,
        {
            assert(f@.take(i + 1).drop_last() =~= f@.take(i as int));
            assert(f@.take(i + 1).last() == f@[i as int]);
            if chars[i] == '"' {
                out.push('"');
                out.push('"');
            } else {
                out.push(chars[i]);
            }
            assert(out@ =~= base + seq!['"'] + escape_quotes(f@.take(i + 1)));
            i = i + 1;
        }
        assert(f@.take(i as int) =~= f@);
        out.push('"');
        assert(out@ =~= base + enc_field(f@));
    } else {
        let mut i: usize = 0;
        while i < chars.len()
            invariant
                0 <= i <= chars@.len(),
                chars@ == f@,
                out@ =~= base + f@.take(i as int),
            decreases chars.len() - i,
        {
            out.push(chars[i]);
            assert(out@ =~= base + f@.take(i + 1));
            i = i + 1;
        }
        assert(f@.take(i as int) =~= f@);
        assert(out@ =~= base + enc_field(f@));
    }
}

/// Render the whole attribute table, replacing any prior content when
/// the caller writes it out.
pub fn encode_file_info_csv(records: &Vec<FileInfo>) -> (text: String)
    ensures
        text@ == encode_table_spec(records.deep_view()),
{
    let ghost rvs = records.deep_view();
    let mut out: Vec<char> = Vec::new();
    let mut header = to_chars("file,mtime_seconds,mode,hash\n");
    proof {
        reveal_strlit("file,mtime_seconds,mode,hash\n");
        assert(header@ =~= header_chars());
    }
    out.append(&mut header);
    let mut i: usize = 0;
    assert(rvs.take(0) =~= Seq::<FileInfoV>::empty());
    assert(out@ =~= header_chars() + enc_records(rvs.take(0)));
    while i < records.len()
        invariant
            0 <= i <= records.len(),
            rvs == records.deep_view(),
            rvs.len() == records@.len(),
            out@ =~= header_chars() + enc_records(rvs.take(i as int)),
        decreases records.len() - i,
    {
        assert(rvs[i as int] == records@[i as int]@);
        let ghost before = out@;
        let r = &records[i];
        push_field(&mut out, &r.file);
        out.push(',');
        let mut mtime = i64_to_dec(r.mtime_seconds);
        out.append(&mut mtime);
        out.push(',');
        let mut mode = u64_to_dec(r.mode as u64);
        out.append(&mut mode);
        out.push(',');
        push_field(&mut out, &r.hash);
        out.push('\n');
        assert(out@ =~= before + enc_record(rvs[i as int]));
        assert(rvs.take(i + 1).drop_last() =~= rvs.take(i as int));
        assert(rvs.take(i + 1).last() == rvs[i as int]);
        i = i + 1;
    }
    assert(rvs.take(i as int) =~= rvs);
    from_chars(&out)
}

// ---------------------------------------------------------------------
// Parsing
// ---------------------------------------------------------------------

/// An unquoted field: the run of plain characters before the next
/// delimiter or line break; a stray quote is an error.
pub open spec fn parse_unquoted(s: Seq<char>, i: int) -> Option<(Seq<char>, int)>
    decreases s.len() - i,
{
    if i >= s.len() {
        Some((Seq::empty(), i))
    } else if s[i] == ',' || s[i] == '\n' || s[i] == '\r' {
        Some((Seq::empty(), i))
    } else if s[i] == '"' {
        None
    } else {
        match parse_unquoted(s, i + 1) {
            Some((rest, j)) => Some((seq![s[i]] + rest, j)),
            None => None,
        }
    }
}

/// The body of a quoted field, entered after its opening quote. A
/// doubled quote is one literal quote; a single quote closes the
/// field; running out of text is an error.
pub open spec fn parse_quoted_body(s: Seq<char>, i: int) -> Option<(Seq<char>, int)>
    decreases s.len() - i,
{
    if i >= s.len() {
        None
    } else if s[i] == '"' {
        if i + 1 < s.len() && s[i + 1] == '"' {
            match parse_quoted_body(s, i + 2) {
                Some((rest, j)) => Some((seq!['"'] + rest, j)),
                None => None,
            }
        } else {
            Some((Seq::empty(), i + 1))
        }
    } else {
        match parse_quoted_body(s, i + 1) {
            Some((rest, j)) => Some((seq![s[i]] + rest, j)),
            None => None,
        }
    }
}

pub open spec fn parse_field(s: Seq<char>, i: int) -> Option<(Seq<char>, int)> {
    if i < s.len() && s[i] == '"' {
        parse_quoted_body(s, i + 1)
    } else {
        parse_unquoted(s, i)
    }
}

/// One data row: four comma-separated fields closed by a newline; the
/// second must parse as a signed and the third as an unsigned number.
pub open spec fn parse_record(s: Seq<char>, i: int) -> Option<(FileInfoV, int)> {
    match parse_field(s, i) {
        None => None,
        Some((f1, j1)) => if j1 < s.len() && s[j1] == ',' {
            match parse_field(s, j1 + 1) {
                None => None,
                Some((f2, j2)) => if j2 < s.len() && s[j2] == ',' {
                    match parse_field(s, j2 + 1) {
                        None => None,
                        Some((f3, j3)) => if j3 < s.len() && s[j3] == ',' {
                            match parse_field(s, j3 + 1) {
                                None => None,
                                Some((f4, j4)) => if j4 < s.len() && s[j4] == '\n' {
                                    match (parse_i64_spec(f2), parse_u32_spec(f3)) {
                                        (Some(mt), Some(md)) => Some(
                                            (
                                                FileInfoV {
                                                    file: f1,
                                                    mtime_seconds: mt,
                                                    mode: md,
                                                    hash: f4,
                                                },
                                                j4 + 1,
                                            ),
                                        ),
                                        _ => None,
                                    }
                                } else {
                                    None
                                },
                            }
                        } else {
                            None
                        },
                    }
                } else {
                    None
                },
            }
        } else {
            None
        },
    }
}

/// The data rows from position `i` to the end of the text.
pub open spec fn parse_rows(s: Seq<char>, i: int) -> Option<Seq<FileInfoV>>
    decreases s.len() - i,
{
    if i >= s.len() {
        Some(Seq::empty())
    } else {
        match parse_record(s, i) {
            None => None,
            Some((r, j)) => if i < j <= s.len() {
                match parse_rows(s, j) {
                    Some(rest) => Some(seq![r] + rest),
                    None => None,
                }
            } else {
                None
            },
        }
    }
}

/// The records of a persisted table, or `None` when the text is no
/// well-formed table.
pub open spec fn parse_table_spec(s: Seq<char>) -> Option<Seq<FileInfoV>> {
    if s.len() >= header_chars().len() && s.take(header_chars().len() as int) == header_chars() {
        parse_rows(s, header_chars().len() as int)
    } else {
        None
    }
}

fn parse_unquoted_exec(s: &Vec<char>, i: usize) -> (r: Option<(Vec<char>, usize)>)
    requires
        i <= s.len(),
    ensures
        match r {
            Some(p) => parse_unquoted(s@, i as int) == Some((p.0@, p.1 as int)) && i <= p.1
                <= s.len(),
            None => parse_unquoted(s@, i as int) is None,
        },
    decreases s.len() - i,
{
    if i == s.len() {
        let empty: Vec<char> = Vec::new();
        assert(empty@ =~= Seq::<char>::empty());
        return Some((empty, i));
    }
    let c = s[i];
    if c == ',' || c == '\n' || c == '\r' {
        let empty: Vec<char> = Vec::new();
        assert(empty@ =~= Seq::<char>::empty());
        return Some((empty, i));
    }
    if c == '"' {
        return None;
    }
    match parse_unquoted_exec(s, i + 1) {
        Some((mut rest, j)) => {
            let ghost tail = rest@;
            rest.insert(0, c);
            assert(rest@ =~= seq![s@[i as int]] + tail);
            Some((rest, j))
        },
        None => None,
    }
}

fn parse_quoted_body_exec(s: &Vec<char>, i: usize) -> (r: Option<(Vec<char>, usize)>)
    requires
        i <= s.len(),
    ensures
        match r {
            Some(p) => parse_quoted_body(s@, i as int) == Some((p.0@, p.1 as int)) && i < p.1
                <= s.len(),
            None => parse_quoted_body(s@, i as int) is None,
        },
    decreases s.len() - i,
{
    if i == s.len() {
        return None;
    }
    let c = s[i];
    if c == '"' {
        if i + 1 < s.len() && s[i + 1] == '"' {
            match parse_quoted_body_exec(s, i + 2) {
                Some((mut rest, j)) => {
                    let ghost tail = rest@;
                    rest.insert(0, '"');
                    assert(rest@ =~= seq!['"'] + tail);
                    Some((rest, j))
                },
                None => None,
            }
        } else {
            let empty: Vec<char> = Vec::new();
            assert(empty@ =~= Seq::<char>::empty());
            Some((empty, i + 1))
        }
    } else {
        match parse_quoted_body_exec(s, i + 1) {
            Some((mut rest, j)) => {
                let ghost tail = rest@;
                rest.insert(0, c);
                assert(rest@ =~= seq![s@[i as int]] + tail);
                Some((rest, j))
            },
            None => None,
        }
    }
}

fn parse_field_exec(s: &Vec<char>, i: usize) -> (r: Option<(Vec<char>, usize)>)
    requires
        i <= s.len(),
    ensures
        match r {
            Some(p) => parse_field(s@, i as int) == Some((p.0@, p.1 as int)) && i <= p.1 <= s.len(),
            None => parse_field(s@, i as int) is None,
        },
{
    if i < s.len() && s[i] == '"' {
        parse_quoted_body_exec(s, i + 1)
    } else {
        parse_unquoted_exec(s, i)
    }
}

fn parse_record_exec(s: &Vec<char>, i: usize) -> (r: Option<(FileInfo, usize)>)
    requires
        i <= s.len(),
    ensures
        match r {
            Some(p) => parse_record(s@, i as int) == Some((p.0@, p.1 as int)) && i < p.1 <= s.len(),
            None => parse_record(s@, i as int) is None,
        },
{
    match parse_field_exec(s, i) {
        None => None,
        Some((f1, j1)) => {
            if !(j1 < s.len() && s[j1] == ',') {
                return None;
            }
            match parse_field_exec(s, j1 + 1) {
                None => None,
                Some((f2, j2)) => {
                    if !(j2 < s.len() && s[j2] == ',') {
                        return None;
                    }
                    match parse_field_exec(s, j2 + 1) {
                        None => None,
                        Some((f3, j3)) => {
                            if !(j3 < s.len() && s[j3] == ',') {
                                return None;
                            }
                            match parse_field_exec(s, j3 + 1) {
                                None => None,
                                Some((f4, j4)) => {
                                    if !(j4 < s.len() && s[j4] == '\n') {
                                        return None;
                                    }
                                    let mt = parse_i64_chars(&f2);
                                    let md = parse_u32_chars(&f3);
                                    match (mt, md) {
                                        (Some(mt), Some(md)) => Some(
                                            (
                                                FileInfo {
                                                    file: from_chars(&f1),
                                                    mtime_seconds: mt,
                                                    mode: md,
                                                    hash: from_chars(&f4),
                                                },
                                                j4 + 1,
                                            ),
                                        ),
                                        _ => None,
                                    }
                                },
                            }
                        },
                    }
                },
            }
        },
    }
}

fn parse_rows_exec(s: &Vec<char>, i: usize) -> (r: Option<Vec<FileInfo>>)
    requires
        i <= s.len(),
    ensures
        match r {
            Some(v) => parse_rows(s@, i as int) == Some(v.deep_view()),
            None => parse_rows(s@, i as int) is None,
        },
    decreases s.len() - i,
{
    if i == s.len() {
        let empty: Vec<FileInfo> = Vec::new();
        assert(empty.deep_view() =~= Seq::<FileInfoV>::empty());
        return Some(empty);
    }
    match parse_record_exec(s, i) {
        None => None,
        Some((rec, j)) => {
            match parse_rows_exec(s, j) {
                None => None,
                Some(mut rest) => {
                    let ghost tail = rest.deep_view();
                    let ghost rv = rec@;
                    rest.insert(0, rec);
                    assert(rest.deep_view() =~= seq![rv] + tail);
                    Some(rest)
                },
            }
        },
    }
}

/// Parse a persisted attribute table. `Ok` holds the records exactly
/// when the text is a well-formed table; every malformed text yields
/// `FormatError`.
pub fn parse_file_info_csv(text: &str) -> (r: Result<Vec<FileInfo>, CacheError>)
    ensures
        match r {
            Ok(v) => parse_table_spec(text@) == Some(v.deep_view()),
            Err(e) => parse_table_spec(text@) is None && e == CacheError::FormatError,
        },
{
    let s = to_chars(text);
    let header = to_chars("file,mtime_seconds,mode,hash\n");
    proof {
        reveal_strlit("file,mtime_seconds,mode,hash\n");
        assert(header@ =~= header_chars());
    }
    if s.len() < header.len() {
        return Err(CacheError::FormatError);
    }
    let mut i: usize = 0;
    while i < header.len()
        invariant
            0 <= i <= header@.len(),
            s@ == text@,
            header@ == header_chars(),
            header@.len() <= s@.len(),
            forall|j: int| 0 <= j < i ==> s@[j] == header@[j],
        decreases header.len() - i,
    {
        if s[i] != header[i] {
            assert(s@.take(header_chars().len() as int)[i as int] != header_chars()[i as int]);
            return Err(CacheError::FormatError);
        }
        i = i + 1;
    }
    assert(s@.take(header_chars().len() as int) =~= header_chars());
    match parse_rows_exec(&s, header.len()) {
        Some(v) => Ok(v),
        None => Err(CacheError::FormatError),
    }
}

// ---------------------------------------------------------------------
// Restore planning
// ---------------------------------------------------------------------

/// What restore does with one record, given the file's bytes as found
/// at restore time: replay the stored mtime and mode only when the
/// fingerprint still matches, else touch nothing.
pub open spec fn restore_action_spec(r: FileInfoV, content: Seq<u8>) -> Option<(i64, u32)> {
    if r.hash == fingerprint_str(content) {
        Some((r.mtime_seconds, r.mode))
    } else {
        None
    }
}

/// Decide one record of a restore: `Some((mtime, mode))` to replay, or
/// `None` to leave the file exactly as found.
pub fn restore_action(record: &FileInfo, content: &Vec<u8>) -> (action: Option<(i64, u32)>)
    ensures
        action == restore_action_spec(record@, content@),
{
    let current = file_content_hash(content);
    if record.hash.eq(&current) {
        Some((record.mtime_seconds, record.mode))
    } else {
        None
    }
}

/// What a restore run plans from the persisted table text, where
/// `None` stands for an absent table.
pub open spec fn plan_restore_post(
    table: Option<String>,
    r: Result<Vec<FileInfo>, CacheError>,
) -> bool {
    match table {
        None => match r {
            Ok(v) => v@.len() == 0,
            Err(_) => false,
        },
        Some(text) => match r {
            Ok(v) => parse_table_spec(text@) == Some(v.deep_view()),
            Err(e) => parse_table_spec(text@) is None && e == CacheError::FormatError,
        },
    }
}

/// Plan a restore run. An absent table is a cache miss, not an error:
/// it succeeds with nothing to do, so no filesystem mutation follows.
pub fn plan_restore(table: &Option<String>) -> (r: Result<Vec<FileInfo>, CacheError>)
    ensures
        plan_restore_post(*table, r),
{
    match table {
        None => Ok(Vec::new()),
        Some(text) => parse_file_info_csv(text.as_str()),
    }
}

// ---------------------------------------------------------------------
// The codec inverts itself
// ---------------------------------------------------------------------

proof fn lemma_escape_add(a: Seq<char>, b: Seq<char>)
    ensures
        escape_quotes(a + b) == escape_quotes(a) + escape_quotes(b),
    decreases b.len(),
{
    if b.len() == 0 {
        assert(a + b =~= a);
        assert(escape_quotes(a) + escape_quotes(b) =~= escape_quotes(a));
    } else {
        lemma_escape_add(a, b.drop_last());
        assert((a + b).drop_last() =~= a + b.drop_last());
        assert((a + b).last() == b.last());
        assert(escape_quotes(a) + escape_quotes(b.drop_last()) + esc_char(b.last()) =~= escape_quotes(
            a,
        ) + (escape_quotes(b.drop_last()) + esc_char(b.last())));
    }
}

proof fn lemma_escape_first(f: Seq<char>)
    requires
        f.len() > 0,
    ensures
        escape_quotes(f) == esc_char(f[0]) + escape_quotes(f.drop_first()),
{
    let a = seq![f[0]];
    let b = f.drop_first();
    assert(f =~= a + b);
    lemma_escape_add(a, b);
    assert(a.drop_last() =~= Seq::<char>::empty());
    assert(escape_quotes(Seq::<char>::empty()) =~= Seq::<char>::empty());
    assert(a.last() == f[0]);
    assert(escape_quotes(a) =~= esc_char(f[0]));
}

proof fn lemma_parse_quoted_of_escape(f: Seq<char>, s: Seq<char>, i: int)
    requires
        0 <= i,
        i + escape_quotes(f).len() < s.len(),
        s.subrange(i, i + escape_quotes(f).len()) == escape_quotes(f),
        s[i + escape_quotes(f).len()] == '"',
        i + escape_quotes(f).len() + 1 == s.len() || s[i + escape_quotes(f).len() + 1] != '"',
    ensures
        parse_quoted_body(s, i) == Some((f, i + escape_quotes(f).len() + 1)),
    decreases f.len(),
{
    let e = escape_quotes(f);
    if f.len() == 0 {
        assert(e.len() == 0);
        assert(s[i] == '"');
        assert(parse_quoted_body(s, i) == Some((Seq::<char>::empty(), i + 1)));
        assert(f =~= Seq::<char>::empty());
    } else {
        lemma_escape_first(f);
        let c = f[0];
        let fr = f.drop_first();
        let er = escape_quotes(fr);
        if c == '"' {
            assert(e =~= seq!['"', '"'] + er);
            assert(s[i] == e[i - i]) by {
                assert(s.subrange(i, i + e.len())[0] == s[i]);
            }
            assert(s[i] == '"');
            assert(s[i + 1] == e[1]);
            assert(s[i + 1] == '"');
            assert(i + 1 < s.len());
            assert(s.subrange(i + 2, i + 2 + er.len()) =~= er) by {
                assert(forall|k: int|
                    0 <= k < er.len() ==> s.subrange(i + 2, i + 2 + er.len())[k] == s[i + 2 + k]
                        && #[trigger] er[k] == e[k + 2]);
            }
            lemma_parse_quoted_of_escape(fr, s, i + 2);
            assert(parse_quoted_body(s, i + 2) == Some((fr, i + e.len() + 1)));
            assert(seq!['"'] + fr =~= f);
        } else {
            assert(e =~= seq![c] + er);
            assert(s[i] == e[0]);
            assert(s[i] == c);
            assert(c != '"');
            assert(s.subrange(i + 1, i + 1 + er.len()) =~= er) by {
                assert(forall|k: int|
                    0 <= k < er.len() ==> s.subrange(i + 1, i + 1 + er.len())[k] == s[i + 1 + k]
                        && #[trigger] er[k] == e[k + 1]);
            }
            lemma_parse_quoted_of_escape(fr, s, i + 1);
            assert(parse_quoted_body(s, i + 1) == Some((fr, i + e.len() + 1)));
            assert(seq![c] + fr =~= f);
        }
    }
}

proof fn lemma_parse_unquoted_of_plain(f: Seq<char>, s: Seq<char>, i: int)
    requires
        0 <= i,
        i + f.len() < s.len(),
        s.subrange(i, i + f.len()) == f,
        s[i + f.len()] == ',' || s[i + f.len()] == '\n',
        forall|j: int| 0 <= j < f.len() ==> !is_special_char(#[trigger] f[j]),
    ensures
        parse_unquoted(s, i) == Some((f, i + f.len())),
    decreases f.len(),
{
    if f.len() == 0 {
        assert(s[i] == ',' || s[i] == '\n');
        assert(f =~= Seq::<char>::empty());
    } else {
        let c = f[0];
        assert(s[i] == c) by {
            assert(s.subrange(i, i + f.len())[0] == s[i]);
        }
        assert(!is_special_char(c));
        let fr = f.drop_first();
        assert(s.subrange(i + 1, i + 1 + fr.len()) =~= fr) by {
            assert(forall|k: int|
                0 <= k < fr.len() ==> s.subrange(i + 1, i + 1 + fr.len())[k] == s[i + 1 + k]
                    && #[trigger] fr[k] == f[k + 1]);
        }
        lemma_parse_unquoted_of_plain(fr, s, i + 1);
        assert(seq![c] + fr =~= f);
    }
}

proof fn lemma_parse_field_of_enc(f: Seq<char>, s: Seq<char>, i: int)
    requires
        0 <= i,
        i + enc_field(f).len() < s.len(),
        s.subrange(i, i + enc_field(f).len()) == enc_field(f),
        s[i + enc_field(f).len()] == ',' || s[i + enc_field(f).len()] == '\n',
    ensures
        parse_field(s, i) == Some((f, i + enc_field(f).len())),
{
    let e = enc_field(f);
    if field_needs_quoting(f) {
        let body = escape_quotes(f);
        assert(e =~= seq!['"'] + body + seq!['"']);
        assert(s[i] == e[0]) by {
            assert(s.subrange(i, i + e.len())[0] == s[i]);
        }
        assert(s[i] == '"');
        assert(s.subrange(i + 1, i + 1 + body.len()) =~= body) by {
            assert(forall|k: int|
                0 <= k < body.len() ==> s.subrange(i + 1, i + 1 + body.len())[k] == s[i + 1 + k]
                    && #[trigger] body[k] == e[k + 1]);
        }
        assert(s[i + 1 + body.len()] == e[1 + body.len() as int]);
        assert(s[i + 1 + body.len()] == '"');
        assert(i + 1 + body.len() + 1 == i + e.len());
        assert(s[i + 1 + body.len() + 1] != '"');
        lemma_parse_quoted_of_escape(f, s, i + 1);
    } else {
        assert(e == f);
        assert(forall|j: int| 0 <= j < f.len() ==> !is_special_char(#[trigger] f[j]));
        if f.len() > 0 {
            assert(s[i] == f[0]) by {
                assert(s.subrange(i, i + f.len())[0] == s[i]);
            }
            assert(!is_special_char(f[0]));
            assert(s[i] != '"');
        } else {
            assert(s[i] == ',' || s[i] == '\n');
            assert(s[i] != '"');
        }
        lemma_parse_unquoted_of_plain(f, s, i);
    }
}

proof fn lemma_digits_not_special(d: Seq<char>)
    requires
        all_digits(d),
    ensures
        forall|j: int| 0 <= j < d.len() ==> !is_special_char(#[trigger] d[j]),
{
    assert forall|j: int| 0 <= j < d.len() implies !is_special_char(#[trigger] d[j]) by {
        assert(is_digit(d[j]));
        assert(digit_val(',') == 10);
        assert(digit_val('"') == 10);
        assert(digit_val('\n') == 10);
        assert(digit_val('\r') == 10);
    }
}

proof fn lemma_i64_str_not_special(n: int)
    ensures
        forall|j: int|
            0 <= j < i64_dec_str(n).len() ==> !is_special_char(#[trigger] i64_dec_str(n)[j]),
        i64_dec_str(n).len() > 0,
        i64_dec_str(n)[0] != '"',
{
    let d = i64_dec_str(n);
    if n < 0 {
        lemma_u64_dec_str_props((-n) as nat);
        lemma_digits_not_special(u64_dec_str((-n) as nat));
        assert forall|j: int| 0 <= j < d.len() implies !is_special_char(#[trigger] d[j]) by {
            if j == 0 {
                assert(d[0] == '-');
            } else {
                assert(d[j] == u64_dec_str((-n) as nat)[j - 1]);
            }
        }
    } else {
        lemma_u64_dec_str_props(n as nat);
        lemma_digits_not_special(d);
        assert(is_digit(d[0]));
        assert(digit_val('"') == 10);
    }
}

proof fn lemma_parse_record_of_enc(r: FileInfoV, s: Seq<char>, i: int)
    requires
        0 <= i,
        i + enc_record(r).len() <= s.len(),
        s.subrange(i, i + enc_record(r).len()) == enc_record(r),
    ensures
        parse_record(s, i) == Some((r, i + enc_record(r).len())),
{
    let e1 = enc_field(r.file);
    let d2 = i64_dec_str(r.mtime_seconds as int);
    let d3 = u64_dec_str(r.mode as nat);
    let e4 = enc_field(r.hash);
    let rec = enc_record(r);
    let a1 = i + e1.len();
    let a2 = a1 + 1 + d2.len();
    let a3 = a2 + 1 + d3.len();
    let a4 = a3 + 1 + e4.len();
    assert(rec.len() == e1.len() + 1 + d2.len() + 1 + d3.len() + 1 + e4.len() + 1);
    assert(forall|k: int| 0 <= k < rec.len() ==> #[trigger] s[i + k] == rec[k]) by {
        assert(forall|k: int|
            0 <= k < rec.len() ==> s.subrange(i, i + rec.len())[k] == #[trigger] s[i + k]);
    }
    // field 1
    assert(s.subrange(i, i + e1.len()) =~= e1) by {
        assert(forall|k: int| 0 <= k < e1.len() ==> #[trigger] e1[k] == rec[k]);
    }
    assert(s[a1] == rec[e1.len() as int]);
    assert(s[a1] == ',');
    lemma_parse_field_of_enc(r.file, s, i);
    // field 2: the mtime digits
    lemma_i64_str_not_special(r.mtime_seconds as int);
    assert(s.subrange(a1 + 1, a1 + 1 + d2.len()) =~= d2) by {
        assert(forall|k: int|
            0 <= k < d2.len() ==> #[trigger] d2[k] == rec[e1.len() + 1 + k]);
    }
    assert(s[a2] == rec[e1.len() + 1 + d2.len() as int]);
    assert(s[a2] == ',');
    assert(s[a1 + 1] == d2[0]) by {
        assert(s.subrange(a1 + 1, a1 + 1 + d2.len())[0] == s[a1 + 1]);
    }
    assert(s[a1 + 1] != '"');
    lemma_parse_unquoted_of_plain(d2, s, a1 + 1);
    assert(parse_field(s, a1 + 1) == Some((d2, a2)));
    // field 3: the mode digits
    lemma_u64_dec_str_props(r.mode as nat);
    lemma_digits_not_special(d3);
    assert(s.subrange(a2 + 1, a2 + 1 + d3.len()) =~= d3) by {
        assert(forall|k: int|
            0 <= k < d3.len() ==> #[trigger] d3[k] == rec[e1.len() + 1 + d2.len() + 1 + k]);
    }
    assert(s[a3] == rec[e1.len() + 1 + d2.len() + 1 + d3.len() as int]);
    assert(s[a3] == ',');
    assert(s[a2 + 1] == d3[0]) by {
        assert(s.subrange(a2 + 1, a2 + 1 + d3.len())[0] == s[a2 + 1]);
    }
    assert(is_digit(d3[0]));
    assert(digit_val('"') == 10);
    assert(s[a2 + 1] != '"');
    lemma_parse_unquoted_of_plain(d3, s, a2 + 1);
    assert(parse_field(s, a2 + 1) == Some((d3, a3)));
    // field 4
    assert(s.subrange(a3 + 1, a3 + 1 + e4.len()) =~= e4) by {
        assert(forall|k: int|
            0 <= k < e4.len() ==> #[trigger] e4[k] == rec[e1.len() + 1 + d2.len() + 1 + d3.len()
                + 1 + k]);
    }
    assert(s[a4] == rec[rec.len() - 1]);
    assert(s[a4] == '\n');
    lemma_parse_field_of_enc(r.hash, s, a3 + 1);
    assert(parse_field(s, a3 + 1) == Some((r.hash, a4)));
    // the numbers parse back
    lemma_parse_i64_of_dec(r.mtime_seconds);
    lemma_parse_u32_of_dec(r.mode);
    let parsed = parse_record(s, i);
    assert(parsed is Some);
    let (pr, pj) = parsed.unwrap();
    assert(pr =~= r);
    assert(pj == a4 + 1);
    assert(a4 + 1 == i + rec.len());
}

proof fn lemma_enc_records_add(a: Seq<FileInfoV>, b: Seq<FileInfoV>)
    ensures
        enc_records(a + b) == enc_records(a) + enc_records(b),
    decreases b.len(),
{
    if b.len() == 0 {
        assert(a + b =~= a);
        assert(enc_records(a) + enc_records(b) =~= enc_records(a));
    } else {
        lemma_enc_records_add(a, b.drop_last());
        assert((a + b).drop_last() =~= a + b.drop_last());
        assert((a + b).last() == b.last());
        assert(enc_records(a) + enc_records(b.drop_last()) + enc_record(b.last())
            =~= enc_records(a) + (enc_records(b.drop_last()) + enc_record(b.last())));
    }
}

proof fn lemma_parse_rows_of_enc(rs: Seq<FileInfoV>, s: Seq<char>, i: int)
    requires
        0 <= i <= s.len(),
        s.subrange(i, s.len() as int) == enc_records(rs),
    ensures
        parse_rows(s, i) == Some(rs),
    decreases rs.len(),
{
    if rs.len() == 0 {
        assert(enc_records(rs).len() == 0);
        assert(i == s.len());
        assert(rs =~= Seq::<FileInfoV>::empty());
    } else {
        let r0 = rs[0];
        let rest = rs.drop_first();
        assert(rs =~= seq![r0] + rest);
        lemma_enc_records_add(seq![r0], rest);
        assert(seq![r0].drop_last() =~= Seq::<FileInfoV>::empty());
        assert(enc_records(Seq::<FileInfoV>::empty()) =~= Seq::<char>::empty());
        assert(seq![r0].last() == r0);
        assert(enc_records(seq![r0]) =~= enc_record(r0));
        let whole = enc_records(rs);
        let l0 = enc_record(r0).len() as int;
        assert(whole =~= enc_record(r0) + enc_records(rest));
        assert(l0 > 0);
        assert(forall|k: int| 0 <= k < whole.len() ==> #[trigger] s[i + k] == whole[k]) by {
            assert(forall|k: int|
                0 <= k < whole.len() ==> s.subrange(i, s.len() as int)[k] == #[trigger] s[i + k]);
        }
        assert(i + whole.len() == s.len());
        assert(s.subrange(i, i + l0) =~= enc_record(r0)) by {
            assert(forall|k: int| 0 <= k < l0 ==> #[trigger] enc_record(r0)[k] == whole[k]);
        }
        lemma_parse_record_of_enc(r0, s, i);
        assert(s.subrange(i + l0, s.len() as int) =~= enc_records(rest)) by {
            assert(forall|k: int|
                0 <= k < enc_records(rest).len() ==> #[trigger] enc_records(rest)[k] == whole[l0
                    + k]);
        }
        lemma_parse_rows_of_enc(rest, s, i + l0);
        assert(parse_rows(s, i) == Some(seq![r0] + rest));
    }
}

/// The table codec inverts itself: parsing an encoded record list
/// yields exactly that list.
pub proof fn lemma_parse_of_encode(rs: Seq<FileInfoV>)
    ensures
        parse_table_spec(encode_table_spec(rs)) == Some(rs),
{
    let s = encode_table_spec(rs);
    let h = header_chars().len() as int;
    assert(s.len() >= h);
    assert(s.take(h) =~= header_chars());
    assert(s.subrange(h, s.len() as int) =~= enc_records(rs));
    lemma_parse_rows_of_enc(rs, s, h);
}

/// Round trip: a snapshot encoded to the table and parsed back holds
/// the same records, and a record whose file's bytes are unchanged
/// restores exactly the snapshotted mtime and mode.
pub proof fn lemma_restore_round_trip(
    rs: Seq<FileInfoV>,
    i: int,
    file: Seq<char>,
    mtime_seconds: i64,
    mode: u32,
    content: Seq<u8>,
)
    requires
        0 <= i < rs.len(),
        rs[i] == snapshot_record(file, mtime_seconds, mode, content),
    ensures
        parse_table_spec(encode_table_spec(rs)) == Some(rs),
        restore_action_spec(rs[i], content) == Some((mtime_seconds, mode)),
{
    lemma_parse_of_encode(rs);
}

/// Fingerprint gating: when the bytes found at restore time hash
/// differently from the snapshotted bytes, the record replays nothing.
pub proof fn lemma_fingerprint_gating(
    file: Seq<char>,
    mtime_seconds: i64,
    mode: u32,
    snapshot_content: Seq<u8>,
    found_content: Seq<u8>,
)
    requires
        fnv1a(found_content) != fnv1a(snapshot_content),
    ensures
        restore_action_spec(
            snapshot_record(file, mtime_seconds, mode, snapshot_content),
            found_content,
        ) is None,
{
    let r = snapshot_record(file, mtime_seconds, mode, snapshot_content);
    if r.hash == fingerprint_str(found_content) {
        lemma_u64_dec_str_injective(
            fnv1a(snapshot_content) as nat,
            fnv1a(found_content) as nat,
        );
        assert(false);
    }
}

} // verus!
