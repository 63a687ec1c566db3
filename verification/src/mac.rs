use vstd::prelude::*;
use crate::text::{chars_of, push_char};

verus! {

/// Number of octets in a MAC address.
pub const MAC_ADDRESS_BYTES: usize = 6;

/// The value of a hexadecimal digit (either case), or `None`.
pub open spec fn hex_digit_value(c: char) -> Option<nat> {
    let v = c as u32;
    if 48 <= v <= 57 {
        Some((v - 48) as nat)
    } else if 65 <= v <= 70 {
        Some((v - 55) as nat)
    } else if 97 <= v <= 102 {
        Some((v - 87) as nat)
    } else {
        None
    }
}

/// Every character is a hexadecimal digit.
pub open spec fn all_hex(d: Seq<char>) -> bool {
    forall|i: int| 0 <= i < d.len() ==> (#[trigger] hex_digit_value(d[i])) is Some
}

/// The number that a string of hexadecimal digits denotes.
pub open spec fn hex_value(d: Seq<char>) -> nat
    decreases d.len(),
{
    if d.len() == 0 {
        0
    } else {
        hex_value(d.drop_last()) * 16 + hex_digit_value(d.last()).unwrap()
    }
}

/// A byte written in base 16: an optional `+`, then at least one hexadecimal
/// digit (either case, leading zeros allowed), denoting a value below 256.
pub open spec fn hex_octet(t: Seq<char>) -> Option<u8> {
    let digits = if t.len() > 0 && t[0] == '+' { t.drop_first() } else { t };
    if digits.len() > 0 && all_hex(digits) && hex_value(digits) < 256 {
        Some(hex_value(digits) as u8)
    } else {
        None
    }
}

/// The pieces of a text between separators, as `str::split` gives them:
/// one more piece than there are separators.
pub open spec fn split_on(s: Seq<char>, sep: char) -> Seq<Seq<char>>
    decreases s.len(),
{
    if s.len() == 0 {
        seq![Seq::<char>::empty()]
    } else {
        let parts = split_on(s.drop_last(), sep);
        if s.last() == sep {
            parts.push(Seq::<char>::empty())
        } else {
            parts.update(parts.len() - 1, parts.last().push(s.last()))
        }
    }
}

/// The octets of the given pieces, or the first piece that is not an octet.
pub open spec fn octets_of(parts: Seq<Seq<char>>) -> Result<Seq<u8>, Seq<char>>
    decreases parts.len(),
{
    if parts.len() == 0 {
        Ok(Seq::<u8>::empty())
    } else {
        match octets_of(parts.drop_last()) {
            Err(bad) => Err(bad),
            Ok(bytes) => match hex_octet(parts.last()) {
                Some(b) => Ok(bytes.push(b)),
                None => Err(parts.last()),
            },
        }
    }
}

/// The message given for a text that does not have six pieces.
pub open spec fn mac_count_message() -> Seq<char> {
    "MAC address must contain 6 octets separated by ':'"@
}

/// The message given for a piece that is not an octet.
pub open spec fn mac_octet_message(part: Seq<char>) -> Seq<char> {
    "Invalid MAC octet: "@ + part
}

/// What parsing a MAC address text gives: the six octets, or the message.
pub open spec fn mac_parse(s: Seq<char>) -> Result<Seq<u8>, Seq<char>> {
    let parts = split_on(s, ':');
    if parts.len() != 6 {
        Err(mac_count_message())
    } else {
        match octets_of(parts) {
            Ok(bytes) => Ok(bytes),
            Err(bad) => Err(mac_octet_message(bad)),
        }
    }
}

/// The upper-case hexadecimal digit for a value below 16.
pub open spec fn hex_upper(d: nat) -> char {
    if d < 10 {
        (d + 48) as char
    } else {
        (d + 55) as char
    }
}

/// A byte as two upper-case hexadecimal digits.
pub open spec fn hex2(b: u8) -> Seq<char> {
    seq![hex_upper((b / 16) as nat), hex_upper((b % 16) as nat)]
}

/// The usual text of a MAC address: six two-digit upper-case octets joined by `:`.
pub open spec fn mac_text(b: Seq<u8>) -> Seq<char> {
    hex2(b[0]) + seq![':'] + hex2(b[1]) + seq![':'] + hex2(b[2]) + seq![':'] + hex2(b[3])
        + seq![':'] + hex2(b[4]) + seq![':'] + hex2(b[5])
}

/// A six-octet link-layer address.
#[derive(Debug, Clone, Copy)]
pub struct MacAddress(pub [u8; 6]);

impl PartialEq for MacAddress {
    fn eq(&self, other: &Self) -> (r: bool) {
        let mut i: usize = 0;
        while i < 6
            invariant
                0 <= i <= 6,
                self.0@.take(i as int) == other.0@.take(i as int),
            decreases 6 - i,
        {
            if self.0[i] != other.0[i] {
                assert(self.0@[i as int] != other.0@[i as int]);
                return false;
            }
            assert(self.0@.take(i + 1) =~= self.0@.take(i as int).push(self.0@[i as int]));
            assert(other.0@.take(i + 1) =~= other.0@.take(i as int).push(other.0@[i as int]));
            i = i + 1;
        }
        assert(self.0@ =~= self.0@.take(6));
        assert(other.0@ =~= other.0@.take(6));
        true
    }
}

impl Eq for MacAddress {}

impl vstd::std_specs::cmp::PartialEqSpecImpl for MacAddress {
    open spec fn obeys_eq_spec() -> bool {
        true
    }

    open spec fn eq_spec(&self, other: &Self) -> bool {
        self.0@ == other.0@
    }
}

impl MacAddress {
    /// The broadcast address, all ones.
    pub fn broadcast() -> (r: MacAddress)
        ensures
            r.octets() == Seq::new(6, |i: int| 0xFFu8),
    {
        let r = MacAddress([0xFF; 6]);
        assert(r.octets() =~= Seq::new(6, |i: int| 0xFFu8));
        r
    }

    /// The octets of the address.
    pub open spec fn octets(&self) -> Seq<u8> {
        self.0@
    }

    /// Parses `XX:XX:XX:XX:XX:XX`; each octet is read in base 16.
    pub fn parse(input: &str) -> (r: Result<MacAddress, String>)
        ensures
            match (r, mac_parse(input@)) {
                (Ok(m), Ok(bytes)) => m.octets() == bytes,
                (Err(e), Err(msg)) => e@ == msg,
                _ => false,
            },
    {
        let chars = chars_of(input);
        let parts = split_chars(&chars, ':');
        if parts.len() != 6 {
            let msg = "MAC address must contain 6 octets separated by ':'".to_owned();
            return Err(msg);
        }
        let mut bytes = [0u8; 6];
        let ghost deep = seqs_of(parts@);
        assert(deep.take(0) =~= Seq::<Seq<char>>::empty());
        assert(bytes@.take(0) =~= Seq::<u8>::empty());
        for i in 0..6
            invariant
                parts@.len() == 6,
                deep == seqs_of(parts@),
                deep == split_on(input@, ':'),
                octets_of(deep.take(i as int)) == Ok::<Seq<u8>, Seq<char>>(bytes@.take(i as int)),
        {
            proof {
                assert(deep.take(i + 1).drop_last() =~= deep.take(i as int));
            }
            match parse_hex_octet(parts[i].as_slice()) {
                Some(b) => {
                    let ghost before = bytes@;
                    bytes[i] = b;
                    assert(bytes@.take(i as int) =~= before.take(i as int));
                    assert(bytes@.take(i + 1) =~= bytes@.take(i as int).push(b));
                },
                None => {
                    proof {
                        lemma_octets_error_persists(deep, i as int + 1);
                    }
                    let mut msg = "Invalid MAC octet: ".to_owned();
                    let n = parts[i].len();
                    for k in 0..n
                        invariant
                            i < 6,
                            parts@.len() == 6,
                            n == parts@[i as int]@.len(),
                            msg@ == "Invalid MAC octet: "@ + parts@[i as int]@.take(k as int),
                    {
                        push_char(&mut msg, parts[i][k]);
                        assert(msg@ =~= "Invalid MAC octet: "@ + parts@[i as int]@.take(k + 1));
                    }
                    assert(parts@[i as int]@.take(n as int) =~= parts@[i as int]@);
                    return Err(msg);
                },
            }
        }
        assert(deep.take(6) =~= deep);
        assert(bytes@.take(6) =~= bytes@);
        Ok(MacAddress(bytes))
    }

    /// The address as `XX:XX:XX:XX:XX:XX`, upper-case.
    pub fn to_text(&self) -> (r: String)
        ensures
            r@ == mac_text(self.octets()),
    {
        let mut out = String::new();
        for i in 0..6
            invariant
                out@ == mac_text_prefix(self.octets(), i as int),
        {
            if i > 0 {
                push_char(&mut out, ':');
            }
            let b = self.0[i];
            push_char(&mut out, hex_digit_char(b / 16));
            push_char(&mut out, hex_digit_char(b % 16));
            assert(out@ =~= mac_text_prefix(self.octets(), i + 1));
        }
        proof {
            reveal_with_fuel(mac_text_prefix, 7);
            assert(mac_text_prefix(self.octets(), 6) =~= mac_text(self.octets()));
        }
        out
    }
}

impl core::str::FromStr for MacAddress {
    type Err = String;

    fn from_str(input: &str) -> (r: Result<MacAddress, String>)
        ensures
            match (r, mac_parse(input@)) {
                (Ok(m), Ok(bytes)) => m.octets() == bytes,
                (Err(e), Err(msg)) => e@ == msg,
                _ => false,
            },
    {
        MacAddress::parse(input)
    }
}

/// The text of the first `n` octets of an address.
pub open spec fn mac_text_prefix(b: Seq<u8>, n: int) -> Seq<char>
    decreases n,
{
    if n <= 0 {
        Seq::<char>::empty()
    } else if n == 1 {
        hex2(b[0])
    } else {
        mac_text_prefix(b, n - 1) + seq![':'] + hex2(b[n - 1])
    }
}

/// The contents of a sequence of character vectors.
pub open spec fn seqs_of(v: Seq<Vec<char>>) -> Seq<Seq<char>> {
    v.map_values(|p: Vec<char>| p@)
}

pub(crate) fn hex_digit_char(d: u8) -> (c: char)
    requires
        d < 16,
    ensures
        c == hex_upper(d as nat),
{
    if d < 10 {
        (d + 48) as char
    } else {
        (d + 55) as char
    }
}

fn hex_digit(c: char) -> (r: Option<u8>)
    ensures
        match hex_digit_value(c) {
            Some(v) => r == Some(v as u8),
            None => r is None,
        },
{
    let v = c as u32;
    if 48 <= v && v <= 57 {
        Some((v - 48) as u8)
    } else if 65 <= v && v <= 70 {
        Some((v - 55) as u8)
    } else if 97 <= v && v <= 102 {
        Some((v - 87) as u8)
    } else {
        None
    }
}

proof fn lemma_hex_value_monotone(d: Seq<char>, i: int)
    requires
        0 <= i <= d.len(),
        all_hex(d),
    ensures
        hex_value(d.take(i)) <= hex_value(d),
    decreases d.len() - i,
{
    if i < d.len() {
        lemma_hex_value_monotone(d, i + 1);
        assert(d.take(i + 1).drop_last() =~= d.take(i));
    } else {
        assert(d.take(i) =~= d);
    }
}

/// A byte in base 16, as `u8::from_str_radix(text, 16)` reads it.
fn parse_hex_octet(t: &[char]) -> (r: Option<u8>)
    ensures
        r == hex_octet(t@),
{
    let n = t.len();
    let start: usize = if n > 0 && t[0] == '+' { 1 } else { 0 };
    let ghost digits = if t@.len() > 0 && t@[0] == '+' { t@.drop_first() } else { t@ };
    assert(digits =~= t@.subrange(start as int, n as int));
    if start == n {
        return None;
    }
    let mut acc: u32 = 0;
    let mut i = start;
    while i < n
        invariant
            start <= i <= n,
            n == t@.len(),
            digits == t@.subrange(start as int, n as int),
            digits == (if t@.len() > 0 && t@[0] == '+' { t@.drop_first() } else { t@ }),
            digits.len() > 0,
            all_hex(t@.subrange(start as int, i as int)),
            acc as nat == hex_value(t@.subrange(start as int, i as int)),
            acc < 256,
        decreases n - i,
    {
        let ghost prefix = t@.subrange(start as int, i as int);
        let ghost next = t@.subrange(start as int, i + 1);
        assert(next.drop_last() =~= prefix);
        match hex_digit(t[i]) {
            None => {
                assert(!all_hex(digits)) by {
                    assert(hex_digit_value(digits[i - start]) is None);
                }
                return None;
            },
            Some(d) => {
                acc = acc * 16 + d as u32;
                assert(all_hex(next)) by {
                    assert forall|k: int| 0 <= k < next.len() implies (#[trigger] hex_digit_value(next[k])) is Some by {
                        if k < prefix.len() {
                            assert(next[k] == prefix[k]);
                        }
                    }
                }
                if acc >= 256 {
                    proof {
                        if all_hex(digits) {
                            assert(next =~= digits.take(i + 1 - start));
                            lemma_hex_value_monotone(digits, i + 1 - start);
                        }
                    }
                    return None;
                }
                i = i + 1;
            },
        }
    }
    Some(acc as u8)
}

/// Splits characters at each separator, as `str::split` does.
fn split_chars(cs: &Vec<char>, sep: char) -> (r: Vec<Vec<char>>)
    ensures
        seqs_of(r@) == split_on(cs@, sep),
{
    let mut done: Vec<Vec<char>> = Vec::new();
    let mut current: Vec<char> = Vec::new();
    let n = cs.len();
    for i in 0..n
        invariant
            n == cs@.len(),
            split_on(cs@.take(i as int), sep) == seqs_of(done@).push(current@),
    {
        let c = cs[i];
        let ghost before = cs@.take(i as int);
        assert(cs@.take(i + 1).drop_last() =~= before);
        if c == sep {
            let finished = current;
            done.push(finished);
            current = Vec::new();
            assert(seqs_of(done@).push(current@) =~= seqs_of(done@.drop_last()).push(
                done@.last()@,
            ).push(Seq::<char>::empty()));
        } else {
            current.push(c);
            assert(seqs_of(done@).push(current@) =~= split_on(cs@.take(i + 1), sep));
        }
    }
    done.push(current);
    assert(cs@.take(n as int) =~= cs@);
    assert(seqs_of(done@) =~= seqs_of(done@.drop_last()).push(done@.last()@));
    done
}

proof fn lemma_octets_error_persists(parts: Seq<Seq<char>>, i: int)
    requires
        0 < i <= parts.len(),
        octets_of(parts.take(i)) is Err,
    ensures
        octets_of(parts) == octets_of(parts.take(i)),
    decreases parts.len() - i,
{
    if i < parts.len() {
        assert(parts.take(i + 1).drop_last() =~= parts.take(i));
        lemma_octets_error_persists(parts, i + 1);
    } else {
        assert(parts.take(i) =~= parts);
    }
}

pub(crate) proof fn lemma_split_len(s: Seq<char>, sep: char)
    ensures
        split_on(s, sep).len() >= 1,
    decreases s.len(),
{
    if s.len() > 0 {
        lemma_split_len(s.drop_last(), sep);
    }
}

/// Appending text without separators extends the last piece.
pub(crate) proof fn lemma_split_append_plain(prefix: Seq<char>, s: Seq<char>, sep: char)
    requires
        !s.contains(sep),
    ensures
        split_on(prefix + s, sep) == split_on(prefix, sep).update(
            split_on(prefix, sep).len() - 1,
            split_on(prefix, sep).last() + s,
        ),
    decreases s.len(),
{
    lemma_split_len(prefix, sep);
    if s.len() == 0 {
        assert(prefix + s =~= prefix);
        assert(split_on(prefix, sep).last() + s =~= split_on(prefix, sep).last());
        assert(split_on(prefix, sep).update(split_on(prefix, sep).len() - 1, split_on(prefix, sep).last())
            =~= split_on(prefix, sep));
    } else {
        let s0 = s.drop_last();
        assert(!s0.contains(sep)) by {
            if s0.contains(sep) {
                let j = choose|j: int| 0 <= j < s0.len() && s0[j] == sep;
                assert(s[j] == sep);
            }
        }
        assert(s.last() != sep) by {
            assert(s[s.len() - 1] == s.last());
        }
        lemma_split_append_plain(prefix, s0, sep);
        assert((prefix + s).drop_last() =~= prefix + s0);
        assert((prefix + s).last() == s.last());
        let parts = split_on(prefix, sep);
        assert((parts.last() + s0).push(s.last()) =~= parts.last() + s);
        assert(split_on(prefix + s, sep) =~= parts.update(parts.len() - 1, parts.last() + s));
    }
}

/// Splitting `text : piece` adds the piece after the pieces of `text`.
pub(crate) proof fn lemma_split_then_piece(text: Seq<char>, piece: Seq<char>, sep: char)
    requires
        !piece.contains(sep),
    ensures
        split_on(text + seq![sep] + piece, sep) == split_on(text, sep).push(piece),
{
    let t = text + seq![sep];
    assert(t.drop_last() =~= text);
    assert(split_on(t, sep) == split_on(text, sep).push(Seq::<char>::empty()));
    lemma_split_append_plain(t, piece, sep);
    assert(Seq::<char>::empty() + piece =~= piece);
    assert(split_on(text, sep).push(Seq::<char>::empty()).update(split_on(text, sep).len() as int, piece)
        =~= split_on(text, sep).push(piece));
}

/// Text without separators is one piece.
pub(crate) proof fn lemma_split_plain(s: Seq<char>, sep: char)
    requires
        !s.contains(sep),
    ensures
        split_on(s, sep) == seq![s],
{
    lemma_split_append_plain(Seq::<char>::empty(), s, sep);
    assert(Seq::<char>::empty() + s =~= s);
    assert(seq![Seq::<char>::empty()].update(0, Seq::<char>::empty() + s) =~= seq![s]);
}

/// Splitting `piece : rest` gives the piece, then the pieces of `rest`.
pub(crate) proof fn lemma_split_front(piece: Seq<char>, rest: Seq<char>, sep: char)
    requires
        !piece.contains(sep),
    ensures
        split_on(piece + seq![sep] + rest, sep) == seq![piece] + split_on(rest, sep),
    decreases rest.len(),
{
    let head = piece + seq![sep];
    if rest.len() == 0 {
        assert(head + rest =~= head);
        assert(head.drop_last() =~= piece);
        lemma_split_plain(piece, sep);
        assert(seq![piece] + split_on(rest, sep) =~= seq![piece, Seq::<char>::empty()]);
    } else {
        let r0 = rest.drop_last();
        let c = rest.last();
        lemma_split_front(piece, r0, sep);
        lemma_split_len(r0, sep);
        assert((head + rest).drop_last() =~= head + r0);
        assert((head + rest).last() == c);
        let parts = split_on(r0, sep);
        if c == sep {
            assert((seq![piece] + parts).push(Seq::<char>::empty()) =~= seq![piece] + parts.push(
                Seq::<char>::empty(),
            ));
        } else {
            let whole = seq![piece] + parts;
            assert(whole.last() == parts.last());
            assert(whole.update(whole.len() - 1, whole.last().push(c)) =~= seq![piece]
                + parts.update(parts.len() - 1, parts.last().push(c)));
        }
    }
}

} // verus!
