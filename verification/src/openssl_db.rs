//! The OpenSSL flat-file CA database: the `serial` file (next serial in hex),
//! `index.txt` (one tab-separated line per certificate) and `newcerts/`.
//! This module computes what the files hold; reading and writing them is the
//! caller's.
use crate::text::{
    chars_of, ends_with, join_texts, joined, split, split_chars, string_from_chars, to_uppercase,
    trim, trim_str, unicode_upper, views,
};
use crate::storage::{remove_char, remove_char_chars};
use vstd::prelude::*;

verus! {

/// A serial as the database writes it: trimmed, upper-cased, spaces removed,
/// and a `0` put in front of an odd number of bytes.
pub open spec fn spec_db_serial(serial: Seq<char>) -> Seq<char> {
    let s = remove_char(unicode_upper(trim(serial)), ' ');
    if vstd::utf8::encode_utf8(s).len() % 2 == 0 {
        s
    } else {
        seq!['0'] + s
    }
}

pub fn normalize_serial(serial: &str) -> (res: String)
    ensures
        res@ == spec_db_serial(serial@),
{
    let t = trim_str(serial);
    let u = to_uppercase(t.as_str());
    let chars = chars_of(u.as_str());
    let kept = remove_char_chars(chars.as_slice(), ' ');
    let s = string_from_chars(kept.as_slice());
    if s.as_str().as_bytes().len() % 2 == 0 {
        s
    } else {
        let mut out = String::from_str("0");
        proof {
            reveal_strlit("0");
        }
        out.append(s.as_str());
        assert(out@ =~= seq!['0'] + s@);
        out
    }
}

/// The path of the `serial` file in a CA directory (`Path::join` of `serial`).
pub open spec fn spec_serial_path(ca_dir: Seq<char>) -> Seq<char> {
    if ca_dir.len() == 0 {
        "serial"@
    } else if ca_dir.last() == '/' {
        ca_dir + "serial"@
    } else {
        ca_dir + "/serial"@
    }
}

pub fn serial_path(ca_dir: &str) -> (res: String)
    ensures
        res@ == spec_serial_path(ca_dir@),
{
    let n = ca_dir.unicode_len();
    if n == 0 {
        String::from_str("serial")
    } else if ca_dir.get_char(n - 1) == '/' {
        let mut out = String::from_str(ca_dir);
        out.append("serial");
        out
    } else {
        let mut out = String::from_str(ca_dir);
        out.append("/serial");
        out
    }
}

/// Value of a hexadecimal digit, either case.
pub open spec fn hex_val(c: char) -> Option<nat> {
    crate::codec::hex_digit_val(c)
}

pub open spec fn hex_value(s: Seq<char>) -> nat
    decreases s.len(),
{
    if s.len() == 0 {
        0
    } else {
        hex_value(s.drop_last()) * 16 + hex_val(s.last()).unwrap_or(0)
    }
}

/// What `u64::from_str_radix(s, 16)` accepts: an optional `+`, then one or
/// more hex digits whose value fits in 64 bits.
pub open spec fn parse_hex_u64(s: Seq<char>) -> Option<nat> {
    let body = if s.len() > 0 && s[0] == '+' {
        s.drop_first()
    } else {
        s
    };
    if body.len() > 0 && crate::codec::all_hex(body) && hex_value(body) <= u64::MAX {
        Some(hex_value(body))
    } else {
        None
    }
}

/// Upper-case hexadecimal digit of a nibble.
pub open spec fn upper_hex_digit(n: nat) -> char {
    if n < 10 {
        (48 + n) as char
    } else {
        (55 + n) as char
    }
}

/// `format!("{:X}", n)`: upper-case hexadecimal without leading zeros.
pub open spec fn upper_hex(n: nat) -> Seq<char>
    decreases n,
{
    if n < 16 {
        seq![upper_hex_digit(n)]
    } else {
        upper_hex(n / 16).push(upper_hex_digit(n % 16))
    }
}

/// Why the serial file could not be advanced.
#[derive(Debug, Clone, Copy, PartialEq, Eq, Structural)]
pub enum SerialError {
    NotHex,
}

fn upper_hex_text(n: u64) -> (res: String)
    ensures
        res@ == upper_hex(n as nat),
    decreases n,
{
    let d = n % 16;
    let c: char = if d < 10 { ((48 + d) as u8) as char } else { ((55 + d) as u8) as char };
    proof {
        assert(c == upper_hex_digit(d as nat));
    }
    if n < 16 {
        let v: Vec<char> = vec![c];
        assert(v@ =~= seq![c]);
        string_from_chars(v.as_slice())
    } else {
        let mut out = upper_hex_text(n / 16);
        let v: Vec<char> = vec![c];
        assert(v@ =~= seq![c]);
        let tail = string_from_chars(v.as_slice());
        out.append(tail.as_str());
        out
    }
}

proof fn lemma_hex_value_bound(s: Seq<char>, k: int)
    requires
        crate::codec::all_hex(s),
        0 <= k <= s.len(),
    ensures
        hex_value(s.subrange(0, k)) <= hex_value(s),
    decreases s.len() - k,
{
    if k < s.len() {
        let t = s.drop_last();
        assert(crate::codec::all_hex(t)) by {
            assert forall|i: int| 0 <= i < t.len() implies (#[trigger] crate::codec::hex_digit_val(t[i])) is Some by {
                assert(t[i] == s[i]);
            }
        }
        lemma_hex_value_bound(t, k);
        assert(t.subrange(0, k) =~= s.subrange(0, k));
    } else {
        assert(s.subrange(0, k) =~= s);
    }
}

fn hex_digit(c: char) -> (r: Option<u64>)
    ensures
        match r {
            Some(v) => hex_val(c) == Some(v as nat) && v < 16,
            None => hex_val(c) is None,
        },
{
    if '0' <= c && c <= '9' {
        Some((c as u32 - '0' as u32) as u64)
    } else if 'a' <= c && c <= 'f' {
        Some((c as u32 - 'a' as u32 + 10) as u64)
    } else if 'A' <= c && c <= 'F' {
        Some((c as u32 - 'A' as u32 + 10) as u64)
    } else {
        None
    }
}

/// `u64::from_str_radix(s, 16)`.
pub fn parse_hex_u64_text(s: &str) -> (res: Option<u64>)
    ensures
        match res {
            Some(v) => parse_hex_u64(s@) == Some(v as nat),
            None => parse_hex_u64(s@) is None,
        },
{
    let v = chars_of(s);
    let start: usize = if v.len() > 0 && v[0] == '+' { 1 } else { 0 };
    let ghost body = if s@.len() > 0 && s@[0] == '+' { s@.drop_first() } else { s@ };
    assert(body =~= v@.subrange(start as int, v@.len() as int));
    if start >= v.len() {
        return None;
    }
    let mut acc: u64 = 0;
    let mut i: usize = start;
    while i < v.len()
        invariant
            start <= i <= v@.len(),
            v@ == s@,
            body == v@.subrange(start as int, v@.len() as int),
            body == (if s@.len() > 0 && s@[0] == '+' { s@.drop_first() } else { s@ }),
            forall|k: int| start <= k < i ==> (#[trigger] crate::codec::hex_digit_val(v@[k])) is Some,
            acc as nat == hex_value(v@.subrange(start as int, i as int)),
        decreases v@.len() - i,
    {
        let ghost pre = v@.subrange(start as int, i as int);
        let ghost nxt = v@.subrange(start as int, i + 1);
        assert(nxt.drop_last() =~= pre);
        let d = match hex_digit(v[i]) {
            Some(d) => d,
            None => {
                assert(body[i - start] == v@[i as int]);
                return None;
            },
        };
        if acc > (u64::MAX - d) / 16 {
            proof {
                assert(hex_value(nxt) == acc * 16 + d);
                assert(acc * 16 + d > u64::MAX) by (nonlinear_arith)
                    requires acc > (u64::MAX - d) / 16, d < 16;
                if crate::codec::all_hex(body) {
                    lemma_hex_value_bound(body, i + 1 - start);
                    assert(body.subrange(0, i + 1 - start) =~= nxt);
                }
            }
            return None;
        }
        proof {
            assert(acc * 16 + d <= u64::MAX) by (nonlinear_arith)
                requires acc <= (u64::MAX - d) / 16, d < 16;
        }
        acc = acc * 16 + d;
        i = i + 1;
    }
    assert(v@.subrange(start as int, i as int) =~= body);
    assert(crate::codec::all_hex(body)) by {
        assert forall|k: int| 0 <= k < body.len() implies (#[trigger] crate::codec::hex_digit_val(body[k])) is Some by {
            assert(body[k] == v@[start + k]);
        }
    }
    Some(acc)
}

/// The serial to use now and the serial to write back, from the `serial`
/// file's text: the current one normalized, and one more, normalized.
pub open spec fn spec_advance_serial(file_text: Seq<char>) -> Result<(Seq<char>, Seq<char>), SerialError> {
    let current = spec_db_serial(file_text);
    match parse_hex_u64(current) {
        None => Err(SerialError::NotHex),
        Some(v) => Ok((current, spec_db_serial(upper_hex(v + 1)))),
    }
}

/// Advances the serial file's text (see `spec_advance_serial`). The serial
/// must not be the largest 64-bit value, where the original overflows.
pub fn advance_serial(file_text: &str) -> (res: Result<(String, String), SerialError>)
    requires
        parse_hex_u64(spec_db_serial(file_text@)) != Some(u64::MAX as nat),
    ensures
        match res {
            Ok((cur, next)) => spec_advance_serial(file_text@) == Ok::<_, SerialError>((cur@, next@)),
            Err(e) => spec_advance_serial(file_text@) == Err::<(Seq<char>, Seq<char>), _>(e),
        },
{
    let current = normalize_serial(file_text);
    let v = match parse_hex_u64_text(current.as_str()) {
        Some(v) => v,
        None => return Err(SerialError::NotHex),
    };
    let next_text = upper_hex_text(v + 1);
    let next = normalize_serial(next_text.as_str());
    Ok((current, next))
}

/// `to_openssl_subject`: the non-empty trimmed lines of a subject, each after a `/`.
pub open spec fn spec_openssl_subject(subject: Seq<char>) -> Seq<char> {
    seq!['/'] + joined(nonempty_trimmed(split(subject, '\n')), "/"@)
}

pub open spec fn nonempty_trimmed(parts: Seq<Seq<char>>) -> Seq<Seq<char>>
    decreases parts.len(),
{
    if parts.len() == 0 {
        Seq::empty()
    } else {
        let r = nonempty_trimmed(parts.drop_last());
        if trim(parts.last()).len() > 0 {
            r.push(trim(parts.last()))
        } else {
            r
        }
    }
}

pub fn to_openssl_subject(node_subject: &str) -> (res: String)
    ensures
        res@ == spec_openssl_subject(node_subject@),
{
    let chars = chars_of(node_subject);
    let parts = split_chars(chars.as_slice(), '\n');
    let ghost sp = split(node_subject@, '\n');
    let mut kept: Vec<String> = Vec::new();
    let mut i: usize = 0;
    assert(sp.subrange(0, 0) =~= Seq::<Seq<char>>::empty());
    while i < parts.len()
        invariant
            i <= parts@.len(),
            chars@ == node_subject@,
            sp == split(node_subject@, '\n'),
            parts@.len() == sp.len(),
            forall|k: int| 0 <= k < parts@.len() ==> (#[trigger] parts@[k])@ == sp[k],
            views(kept@) == nonempty_trimmed(sp.subrange(0, i as int)),
        decreases parts@.len() - i,
    {
        assert(sp.subrange(0, i + 1).drop_last() =~= sp.subrange(0, i as int));
        assert(sp.subrange(0, i + 1).last() == parts@[i as int]@);
        let piece = string_from_chars(parts[i].as_slice());
        let t = trim_str(piece.as_str());
        let ghost before = kept@;
        if t.as_str().unicode_len() > 0 {
            kept.push(t);
            assert(views(kept@) =~= views(before).push(trim(sp[i as int])));
        }
        i = i + 1;
    }
    assert(sp.subrange(0, parts@.len() as int) =~= sp);
    let joined_parts = join_texts(kept.as_slice(), "/");
    let mut out = String::from_str("/");
    proof {
        reveal_strlit("/");
    }
    out.append(joined_parts.as_str());
    assert(out@ =~= seq!['/'] + joined(views(kept@), "/"@));
    out
}

/// Name for the date `to_openssl_date` writes (`%y%m%d%H%M%SZ`, in the
/// time's own offset) for an RFC 3339 or RFC 2822 time; `None` where neither parses.
pub uninterp spec fn openssl_date_of(time: Seq<char>) -> Option<Seq<char>>;

/// `chrono::DateTime::parse_from_rfc3339`, else `parse_from_rfc2822`,
/// formatted `%y%m%d%H%M%SZ`.
#[verifier::external_body]
fn parse_openssl_date(time: &str) -> (res: Option<String>)
    ensures
        match res {
            Some(t) => openssl_date_of(time@) == Some(t@),
            None => openssl_date_of(time@) is None,
        },
{
    chrono::DateTime::parse_from_rfc3339(time)
        .or_else(|_| chrono::DateTime::parse_from_rfc2822(time))
        .ok()
        .map(|d| d.format("%y%m%d%H%M%SZ").to_string())
}

/// `chrono::Utc::now()` formatted `%y%m%d%H%M%SZ`: the current time, of which
/// nothing is stated.
#[verifier::external_body]
fn now_openssl_date() -> String {
    chrono::Utc::now().format("%y%m%d%H%M%SZ").to_string()
}

/// The index date of a time: its `openssl_date_of` where it parses, else now.
pub fn to_openssl_date(time: &str) -> (res: String)
    ensures
        openssl_date_of(time@) matches Some(t) ==> res@ == t,
{
    match parse_openssl_date(time) {
        Some(t) => t,
        None => now_openssl_date(),
    }
}

/// The `index.txt` line of a valid certificate: status `V`, expiry date,
/// empty revocation date, serial, `unknown` file name, subject.
pub open spec fn spec_valid_line(date: Seq<char>, serial_hex: Seq<char>, subject: Seq<char>) -> Seq<char> {
    "V\t"@ + date + "\t\t"@ + spec_db_serial(serial_hex) + "\tunknown\t"@ + spec_openssl_subject(subject) + "\n"@
}

/// The line `append_valid_entry` adds to `index.txt`.
pub fn valid_entry_line(serial_hex: &str, expiry_date: &str, subject: &str) -> (res: String)
    ensures
        exists|date: Seq<char>|
            #![trigger spec_valid_line(date, serial_hex@, subject@)]
            (openssl_date_of(expiry_date@) matches Some(t) ==> date == t) && res@ == spec_valid_line(
                date,
                serial_hex@,
                subject@,
            ),
{
    let date = to_openssl_date(expiry_date);
    let mut line = String::from_str("V\t");
    line.append(date.as_str());
    line.append("\t\t");
    line.append(normalize_serial(serial_hex).as_str());
    line.append("\tunknown\t");
    line.append(to_openssl_subject(subject).as_str());
    line.append("\n");
    assert(line@ =~= spec_valid_line(date@, serial_hex@, subject@));
    line
}

/// A line without a trailing carriage return.
pub open spec fn strip_cr(l: Seq<char>) -> Seq<char> {
    if l.len() > 0 && l.last() == '\r' {
        l.drop_last()
    } else {
        l
    }
}

/// `str::lines`: the pieces between `\n`s, each that ended in `\n` without a
/// trailing `\r`; the piece after the last `\n` only where it is not empty.
pub open spec fn text_lines(s: Seq<char>) -> Seq<Seq<char>> {
    let p = split(s, '\n');
    let head = Seq::new((p.len() - 1) as nat, |i: int| strip_cr(p[i]));
    if p.last().len() > 0 {
        head.push(p.last())
    } else {
        head
    }
}

pub fn text_lines_of(content: &str) -> (res: Vec<String>)
    ensures
        views(res@) == text_lines(content@),
{
    let chars = chars_of(content);
    let parts = split_chars(chars.as_slice(), '\n');
    let ghost p = split(content@, '\n');
    let n = parts.len();
    proof {
        assert(p.len() >= 1) by {
            crate::text::lemma_split_nonempty(content@, '\n');
        }
    }
    let mut out: Vec<String> = Vec::new();
    let mut i: usize = 0;
    while i + 1 < n
        invariant
            n == parts@.len(),
            n == p.len(),
            n >= 1,
            chars@ == content@,
            p == split(content@, '\n'),
            forall|k: int| 0 <= k < n ==> (#[trigger] parts@[k])@ == p[k],
            i + 1 <= n,
            views(out@) == Seq::new(i as nat, |k: int| strip_cr(p[k])),
        decreases n - i,
    {
        let line = &parts[i];
        let m = line.len();
        let kept: &[char] = if m > 0 && line[m - 1] == '\r' {
            &line.as_slice()[0..m - 1]
        } else {
            line.as_slice()
        };
        proof {
            if m > 0 && line@[m - 1] == '\r' {
                assert(kept@ =~= line@.drop_last());
            }
        }
        let ghost before = out@;
        let piece = string_from_chars(kept);
        assert(piece@ == strip_cr(p[i as int]));
        out.push(piece);
        assert(out@ =~= before.push(piece));
        assert(views(out@) =~= views(before).push(piece@));
        assert(views(out@) =~= Seq::new((i + 1) as nat, |k: int| strip_cr(p[k])));
        i = i + 1;
    }
    let last = &parts[n - 1];
    if last.len() > 0 {
        let ghost before = out@;
        out.push(string_from_chars(last.as_slice()));
        assert(views(out@) =~= text_lines(content@));
    } else {
        assert(views(out@) =~= text_lines(content@));
    }
    out
}

/// An index line with the serial marked revoked at `date`, and whether it was:
/// lines of four or more tab-separated fields, status `V` and that serial.
pub open spec fn revoke_line(line: Seq<char>, serial: Seq<char>, date: Seq<char>) -> (Seq<char>, bool) {
    let f = split(line, '\t');
    if f.len() >= 4 && f[0] == "V"@ && f[3] == serial {
        (joined(f.update(0, "R"@).update(2, date), "\t"@), true)
    } else {
        (line, false)
    }
}

/// The index text with the serial's valid lines marked revoked (lines joined
/// by `\n`, as written back), and whether any line was.
pub open spec fn spec_mark_revoked(content: Seq<char>, serial_hex: Seq<char>, date: Seq<char>) -> (Seq<char>, bool) {
    let lines = text_lines(content);
    let serial = spec_db_serial(serial_hex);
    (
        joined(lines.map_values(|l: Seq<char>| revoke_line(l, serial, date).0), "\n"@),
        exists|i: int| 0 <= i < lines.len() && #[trigger] revoke_line(lines[i], serial, date).1,
    )
}

fn text_is(s: &[char], lit: &str) -> (b: bool)
    ensures
        b == (s@ == lit@),
{
    let l = chars_of(lit);
    let r = s.len() == l.len() && crate::text::starts_with_chars(s, l.as_slice());
    proof {
        if s@.len() == l@.len() {
            assert(s@.subrange(0, l@.len() as int) =~= s@);
        }
    }
    r
}

fn revoke_one(line: &String, serial: &String, date: &String) -> (res: (String, bool))
    ensures
        (res.0@, res.1) == revoke_line(line@, serial@, date@),
{
    let chars = chars_of(line.as_str());
    let fields = split_chars(chars.as_slice(), '\t');
    let serial_chars = chars_of(serial.as_str());
    let ghost f = split(line@, '\t');
    if fields.len() >= 4 && text_is(fields[0].as_slice(), "V") && text_is(fields[3].as_slice(), serial.as_str()) {
        let mut texts: Vec<String> = Vec::new();
        let mut i: usize = 0;
        let ghost g = f.update(0, "R"@).update(2, date@);
        while i < fields.len()
            invariant
                i <= fields@.len(),
                fields@.len() == f.len(),
                f.len() >= 4,
                g == f.update(0, "R"@).update(2, date@),
                forall|k: int| 0 <= k < fields@.len() ==> (#[trigger] fields@[k])@ == f[k],
                views(texts@) == g.subrange(0, i as int),
            decreases fields@.len() - i,
        {
            let t = if i == 0 {
                String::from_str("R")
            } else if i == 2 {
                date.clone()
            } else {
                string_from_chars(fields[i].as_slice())
            };
            let ghost before = texts@;
            assert(t@ == g[i as int]);
            texts.push(t);
            assert(texts@ =~= before.push(t));
            assert(views(texts@) =~= views(before).push(t@));
            assert(views(texts@) =~= g.subrange(0, i + 1));
            i = i + 1;
        }
        assert(g.subrange(0, fields@.len() as int) =~= g);
        (join_texts(texts.as_slice(), "\t"), true)
    } else {
        (line.clone(), false)
    }
}

/// Marks the serial's valid lines of an index text revoked (see `spec_mark_revoked`).
pub fn mark_revoked_in_index(content: &str, serial_hex: &str, revoked_date: &str) -> (res: (String, bool))
    ensures
        (res.0@, res.1) == spec_mark_revoked(content@, serial_hex@, revoked_date@),
{
    let lines = text_lines_of(content);
    let serial = normalize_serial(serial_hex);
    let date = String::from_str(revoked_date);
    let ghost ls = text_lines(content@);
    let ghost sv = spec_db_serial(serial_hex@);
    let mut out: Vec<String> = Vec::new();
    let mut found = false;
    let mut i: usize = 0;
    while i < lines.len()
        invariant
            i <= lines@.len(),
            views(lines@) == ls,
            serial@ == sv,
            date@ == revoked_date@,
            views(out@) == ls.subrange(0, i as int).map_values(|l: Seq<char>| revoke_line(l, sv, revoked_date@).0),
            found == exists|k: int| 0 <= k < i && #[trigger] revoke_line(ls[k], sv, revoked_date@).1,
        decreases lines@.len() - i,
    {
        assert(views(lines@)[i as int] == lines@[i as int]@);
        let (l, hit) = revoke_one(&lines[i], &serial, &date);
        let ghost before = out@;
        let ghost lc = l;
        out.push(l);
        assert(out@ =~= before.push(lc));
        assert(views(out@) =~= views(before).push(lc@));
        assert(views(out@) =~= ls.subrange(0, i + 1).map_values(|l: Seq<char>| revoke_line(l, sv, revoked_date@).0));
        if hit {
            assert(revoke_line(ls[i as int], sv, revoked_date@).1);
        }
        found = found || hit;
        i = i + 1;
    }
    assert(ls.subrange(0, lines@.len() as int) =~= ls);
    (join_texts(out.as_slice(), "\n"), found)
}

/// Whether an index text lists the serial (fourth field of a line with four or more).
pub open spec fn index_lists(content: Seq<char>, serial_hex: Seq<char>) -> bool {
    exists|i: int|
        0 <= i < text_lines(content).len() && {
            let f = split(#[trigger] text_lines(content)[i], '\t');
            f.len() >= 4 && f[3] == spec_db_serial(serial_hex)
        }
}

pub fn index_has_serial(content: &str, serial_hex: &str) -> (b: bool)
    ensures
        b == index_lists(content@, serial_hex@),
{
    let lines = text_lines_of(content);
    let serial = normalize_serial(serial_hex);
    let mut i: usize = 0;
    while i < lines.len()
        invariant
            i <= lines@.len(),
            views(lines@) == text_lines(content@),
            serial@ == spec_db_serial(serial_hex@),
            forall|k: int| 0 <= k < i ==> {
                let f = split(#[trigger] text_lines(content@)[k], '\t');
                !(f.len() >= 4 && f[3] == spec_db_serial(serial_hex@))
            },
        decreases lines@.len() - i,
    {
        assert(views(lines@)[i as int] == lines@[i as int]@);
        let chars = chars_of(lines[i].as_str());
        let fields = split_chars(chars.as_slice(), '\t');
        if fields.len() >= 4 && text_is(fields[3].as_slice(), serial.as_str()) {
            return true;
        }
        i = i + 1;
    }
    false
}

} // verus!
