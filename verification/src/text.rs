use vstd::prelude::*;
use crate::mac::{hex2, lemma_split_front, lemma_split_len, lemma_split_plain, split_on};
use crate::types::{secs_of, since_unix_epoch, subsec_millis_of, unix_parts};
use std::time::SystemTime;

verus! {

/// Appends one character to a string (`String::push`).
#[verifier::external_body]
pub(crate) fn push_char(s: &mut String, c: char)
    ensures
        final(s)@ == old(s)@.push(c),
{
    s.push(c);
}

/// The characters of a string slice, in order.
pub(crate) fn chars_of(s: &str) -> (r: Vec<char>)
    ensures
        r@ == s@,
{
    broadcast use vstd::string::axiom_spec_iter;
    let mut out: Vec<char> = Vec::new();
    for c in it: s.chars()
        invariant
            out@ == it.seq().take(it.index()),
    {
        out.push(c);
    }
    assert(out@ =~= s@);
    out
}

/// A string made of the given characters, in order.
pub(crate) fn string_from_chars(cs: &[char]) -> (r: String)
    ensures
        r@ == cs@,
{
    let mut out = String::new();
    let n = cs.len();
    for i in 0..n
        invariant
            n == cs@.len(),
            out@ == cs@.take(i as int),
    {
        push_char(&mut out, cs[i]);
        assert(out@ =~= cs@.take(i + 1));
    }
    assert(out@ =~= cs@);
    out
}

/// The decimal digit character for a value below ten.
pub open spec fn decimal_digit(d: nat) -> char {
    (d + 48) as char
}

/// A number written in decimal, without leading zeros.
pub open spec fn decimal(n: nat) -> Seq<char>
    decreases n,
{
    if n < 10 {
        seq![decimal_digit(n)]
    } else {
        decimal(n / 10).push(decimal_digit(n % 10))
    }
}

/// Appends a number written in decimal.
pub fn push_decimal(out: &mut String, n: u128)
    ensures
        final(out)@ == old(out)@ + decimal(n as nat),
    decreases n,
{
    if n >= 10 {
        push_decimal(out, n / 10);
    }
    let d = (n % 10) as u32;
    let c = char_from_digit(d);
    push_char(out, c);
    assert(final(out)@ =~= old(out)@ + decimal(n as nat));
}

/// A signed number in decimal, with a minus sign when negative.
pub open spec fn signed_decimal(v: int) -> Seq<char> {
    if v < 0 {
        seq!['-'].add(decimal((-v) as nat))
    } else {
        decimal(v as nat)
    }
}

/// Appends a signed number written in decimal.
pub fn push_signed_decimal(out: &mut String, v: i128)
    ensures
        final(out)@ == old(out)@ + signed_decimal(v as int),
{
    if v < 0 {
        push_char(out, '-');
        let magnitude: u128 = ((-(v + 1)) as u128) + 1;
        push_decimal(out, magnitude);
        assert(final(out)@ =~= old(out)@ + signed_decimal(v as int));
    } else {
        push_decimal(out, v as u128);
    }
}

fn char_from_digit(d: u32) -> (c: char)
    requires
        d < 10,
    ensures
        c == decimal_digit(d as nat),
{
    ((d + 48) as u8) as char
}

/// The text of a time given as seconds and milliseconds since the Unix
/// epoch: `seconds.millis`, both in decimal (milliseconds are not padded).
pub open spec fn unix_time_text(parts: Option<(u64, u32)>) -> Seq<char> {
    match parts {
        Some((secs, millis)) => decimal(secs as nat) + seq!['.'] + decimal(millis as nat),
        None => "invalid-time"@,
    }
}

/// Formats seconds and milliseconds since the Unix epoch; `None` stands for
/// a time before the epoch.
pub fn format_unix_time(parts: Option<(u64, u32)>) -> (r: String)
    ensures
        r@ == unix_time_text(parts),
{
    match parts {
        Some((secs, millis)) => {
            let mut out = String::new();
            push_decimal(&mut out, secs as u128);
            push_char(&mut out, '.');
            push_decimal(&mut out, millis as u128);
            assert(out@ =~= unix_time_text(parts));
            out
        },
        None => "invalid-time".to_owned(),
    }
}

/// Formats a wall-clock time as seconds and milliseconds since the Unix
/// epoch, or `invalid-time` for a time before it.
pub fn format_system_time(time: SystemTime) -> (r: String)
    ensures
        r@ == unix_time_text(unix_parts(time)),
{
    let parts = match since_unix_epoch(&time) {
        Some(d) => Some((secs_of(&d), subsec_millis_of(&d))),
        None => None,
    };
    format_unix_time(parts)
}

/// A text without its trailing carriage returns.
pub open spec fn trim_trailing_cr(s: Seq<char>) -> Seq<char>
    decreases s.len(),
{
    if s.len() > 0 && s.last() == '\r' {
        trim_trailing_cr(s.drop_last())
    } else {
        s
    }
}

/// `p` is the position of the first line feed in `s`.
pub open spec fn is_first_newline(s: Seq<char>, p: int) -> bool {
    &&& 0 <= p < s.len()
    &&& s[p] == '\n'
    &&& forall|j: int| 0 <= j < p ==> s[j] != '\n'
}

/// The position of the first line feed in `s`, if there is one.
pub open spec fn first_newline(s: Seq<char>) -> int {
    choose|p: int| is_first_newline(s, p)
}

/// Two positions that are both the first line feed are the same.
pub proof fn lemma_first_newline_unique(s: Seq<char>, p: int, q: int)
    requires
        is_first_newline(s, p),
        is_first_newline(s, q),
    ensures
        p == q,
{
}

/// The number of trailing carriage returns of a text.
fn trimmed_len(cs: &Vec<char>, end: usize) -> (r: usize)
    requires
        end <= cs@.len(),
    ensures
        r <= end,
        cs@.take(r as int) == trim_trailing_cr(cs@.take(end as int)),
    decreases end,
{
    if end > 0 && cs[end - 1] == '\r' {
        assert(cs@.take(end as int).drop_last() =~= cs@.take(end - 1));
        trimmed_len(cs, end - 1)
    } else {
        end
    }
}

/// Takes the first complete line (up to a line feed) out of `pending`, without
/// the line feed and any carriage returns before it; `None`, with `pending`
/// untouched, when there is no line feed.
pub fn next_line(pending: &mut String) -> (r: Option<String>)
    ensures
        (forall|j: int| 0 <= j < old(pending)@.len() ==> old(pending)@[j] != '\n') ==> (r is None
            && final(pending)@ == old(pending)@),
        (exists|j: int| 0 <= j < old(pending)@.len() && old(pending)@[j] == '\n') ==> ({
            let s = old(pending)@;
            let p = first_newline(s);
            &&& is_first_newline(s, p)
            &&& r matches Some(line) && line@ == trim_trailing_cr(s.take(p))
            &&& final(pending)@ == s.skip(p + 1)
        }),
        r matches Some(line) ==> ({
            let s = old(pending)@;
            let p = first_newline(s);
            &&& line@.len() <= p
            &&& line@ == s.take(line@.len() as int)
            &&& forall|i: int| line@.len() <= i < p ==> s[i] == '\r'
            &&& line@.len() == 0 || line@.last() != '\r'
        }),
{
    let cs = chars_of(pending.as_str());
    let n = cs.len();
    let mut i: usize = 0;
    while i < n
        invariant
            n == cs@.len(),
            cs@ == old(pending)@,
            *pending == *old(pending),
            i <= n,
            forall|j: int| 0 <= j < i ==> cs@[j] != '\n',
        decreases n - i,
    {
        if cs[i] == '\n' {
            proof {
                assert(is_first_newline(cs@, i as int));
                lemma_first_newline_unique(cs@, i as int, first_newline(cs@));
            }
            let keep = trimmed_len(&cs, i);
            proof {
                crate::laws::lemma_trim_cuts_only_carriage_returns(cs@.take(i as int));
                assert forall|j: int| keep <= j < i implies cs@[j] == '\r' by {
                    assert(cs@.take(i as int)[j] == cs@[j]);
                }
                assert(cs@.take(i as int).take(keep as int) =~= cs@.take(keep as int));
            }
            let line = string_from_chars(vstd::slice::slice_subrange(cs.as_slice(), 0, keep));
            let rest = string_from_chars(vstd::slice::slice_subrange(cs.as_slice(), i + 1, n));
            *pending = rest;
            assert(cs@.subrange(0, keep as int) =~= cs@.take(keep as int));
            assert(cs@.subrange(i + 1, n as int) =~= cs@.skip(i + 1));
            return Some(line);
        }
        i = i + 1;
    }
    None
}

/// The complete lines of a text (each without its line feed and trailing
/// carriage returns), in order.
pub open spec fn lines_of(s: Seq<char>) -> Seq<Seq<char>> {
    split_on(s, '\n').drop_last().map_values(|l: Seq<char>| trim_trailing_cr(l))
}

/// What follows the last line feed of a text.
pub open spec fn unfinished_line(s: Seq<char>) -> Seq<char> {
    split_on(s, '\n').last()
}

/// The lines that are not empty, in order.
pub open spec fn nonempty_lines(ls: Seq<Seq<char>>) -> Seq<Seq<char>>
    decreases ls.len(),
{
    if ls.len() == 0 {
        Seq::empty()
    } else if ls.last().len() > 0 {
        nonempty_lines(ls.drop_last()).push(ls.last())
    } else {
        nonempty_lines(ls.drop_last())
    }
}

/// The contents of some strings.
pub open spec fn texts_of(v: Seq<String>) -> Seq<Seq<char>> {
    v.map_values(|t: String| t@)
}

proof fn lemma_lines_front(s: Seq<char>, p: int)
    requires
        is_first_newline(s, p),
    ensures
        lines_of(s) == seq![trim_trailing_cr(s.take(p))] + lines_of(s.skip(p + 1)),
        unfinished_line(s) == unfinished_line(s.skip(p + 1)),
{
    let a = s.take(p);
    let b = s.skip(p + 1);
    assert(!a.contains('\n')) by {
        if a.contains('\n') {
            let j = choose|j: int| 0 <= j < a.len() && a[j] == '\n';
            assert(s[j] == '\n');
        }
    }
    assert(s =~= a + seq!['\n'] + b);
    lemma_split_front(a, b, '\n');
    lemma_split_len(b, '\n');
    let parts = split_on(b, '\n');
    assert((seq![a] + parts).drop_last() =~= seq![a] + parts.drop_last());
    assert(lines_of(s) =~= seq![trim_trailing_cr(a)] + lines_of(b));
}

/// Takes every complete line out of `pending`, leaving what follows the
/// last line feed; empty lines are dropped.
pub fn take_lines(pending: &mut String) -> (r: Vec<String>)
    ensures
        texts_of(r@) == nonempty_lines(lines_of(old(pending)@)),
        final(pending)@ == unfinished_line(old(pending)@),
{
    let ghost s0 = pending@;
    let mut out: Vec<String> = Vec::new();
    let ghost mut taken: Seq<Seq<char>> = Seq::empty();
    assert(taken + lines_of(s0) =~= lines_of(s0));
    loop
        invariant
            s0 == old(pending)@,
            lines_of(s0) == taken + lines_of(pending@),
            unfinished_line(s0) == unfinished_line(pending@),
            texts_of(out@) == nonempty_lines(taken),
        decreases pending@.len(),
    {
        let ghost before = pending@;
        match next_line(pending) {
            None => {
                proof {
                    assert(!before.contains('\n')) by {
                        if before.contains('\n') {
                            let j = choose|j: int| 0 <= j < before.len() && before[j] == '\n';
                        }
                    }
                    lemma_split_plain(before, '\n');
                    assert(lines_of(before) =~= Seq::<Seq<char>>::empty());
                    assert(taken + lines_of(before) =~= taken);
                }
                return out;
            },
            Some(line) => {
                proof {
                    let p = first_newline(before);
                    lemma_lines_front(before, p);
                    assert(taken + lines_of(before) =~= taken.push(line@) + lines_of(pending@));
                    assert(taken.push(line@).drop_last() =~= taken);
                }
                let ghost old_out = out@;
                if !line.as_str().is_empty() {
                    out.push(line);
                    assert(texts_of(out@) =~= texts_of(old_out).push(out@.last()@));
                }
                proof {
                    taken = taken.push(line@);
                }
            },
        }
    }
}

/// Where the default configuration lies below a project directory, joined
/// as `PathBuf::push` does: a separator is added unless the directory is
/// empty or already ends with one.
pub open spec fn config_path_in(dir: Seq<char>) -> Seq<char> {
    let rel = "src/default_config.yaml"@;
    if dir.len() == 0 || dir.last() == '/' {
        dir + rel
    } else {
        dir + seq!['/'] + rel
    }
}

/// The path of the default configuration file below the project directory.
pub fn default_config_path(manifest_dir: &str) -> (r: String)
    ensures
        r@ == config_path_in(manifest_dir@),
{
    let mut out = manifest_dir.to_owned();
    let cs = chars_of(manifest_dir);
    if cs.len() > 0 && cs[cs.len() - 1] != '/' {
        push_char(&mut out, '/');
    }
    out.append("src/default_config.yaml");
    out
}

/// Whether a byte shows as itself in a preview: printable ASCII or space.
pub open spec fn shows_as_itself(b: u8) -> bool {
    (0x21 <= b <= 0x7E) || b == 0x20
}

/// Bytes in upper-case hexadecimal, separated by spaces.
pub open spec fn hex_list(b: Seq<u8>) -> Seq<char>
    decreases b.len(),
{
    if b.len() == 0 {
        Seq::empty()
    } else if b.len() == 1 {
        hex2(b[0])
    } else {
        hex_list(b.drop_last()) + seq![' '] + hex2(b.last())
    }
}

/// Bytes as characters, those that do not show as themselves written `.`.
pub open spec fn ascii_view(b: Seq<u8>) -> Seq<char> {
    Seq::new(b.len(), |i: int| if shows_as_itself(b[i]) { b[i] as char } else { '.' })
}

/// The preview of a byte stream: its first sixteen bytes in hexadecimal and as text.
pub open spec fn byte_preview(b: Seq<u8>) -> Seq<char> {
    let head = if b.len() <= 16 { b } else { b.take(16) };
    "hex=["@ + hex_list(head) + "] ascii=\""@ + ascii_view(head) + "\""@
}

/// A short preview of a byte stream for debug output.
pub fn format_byte_preview(bytes: &[u8]) -> (r: String)
    ensures
        r@ == byte_preview(bytes@),
{
    let n: usize = if bytes.len() <= 16 { bytes.len() } else { 16 };
    let ghost head = if bytes@.len() <= 16 { bytes@ } else { bytes@.take(16) };
    assert(head =~= bytes@.take(n as int));
    let mut out = "hex=[".to_owned();
    let ghost prefix = out@;
    for i in 0..n
        invariant
            n <= bytes@.len(),
            head == bytes@.take(n as int),
            out@ == prefix + hex_list(bytes@.take(i as int)),
    {
        if i > 0 {
            push_char(&mut out, ' ');
        }
        let b = bytes[i];
        push_char(&mut out, crate::mac::hex_digit_char(b / 16));
        push_char(&mut out, crate::mac::hex_digit_char(b % 16));
        assert(bytes@.take(i + 1).drop_last() =~= bytes@.take(i as int));
        assert(out@ =~= prefix + hex_list(bytes@.take(i + 1)));
    }
    out.append("] ascii=\"");
    let ghost prefix2 = out@;
    for i in 0..n
        invariant
            n <= bytes@.len(),
            out@ == prefix2 + ascii_view(bytes@.take(i as int)),
    {
        let b = bytes[i];
        let c = if (0x21 <= b && b <= 0x7E) || b == 0x20 { b as char } else { '.' };
        push_char(&mut out, c);
        assert(out@ =~= prefix2 + ascii_view(bytes@.take(i + 1)));
    }
    out.append("\"");
    assert(out@ =~= byte_preview(bytes@));
    out
}

} // verus!
