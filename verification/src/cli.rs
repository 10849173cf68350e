//! Argument helpers of the hardware command-line tool: hex byte strings in,
//! hex dumps out, and the raw report operations read off its arguments.

use crate::offload::HwFilterType;
use crate::text;
use crate::text::{lowercase_of, pieces, strings_view};
use vstd::prelude::*;
use vstd::string::StringSliceAdditionalSpecFns;
use vstd::utf8::encode_utf8;

verus! {

/// A byte that only continues a multi-byte UTF-8 character.
pub open spec fn is_continuation(b: u8) -> bool {
    0x80 <= b && b <= 0xbf
}

/// A separator the tool lets hex strings carry: space, `:`, `,`, `-`, `_`.
pub open spec fn is_hex_separator(b: u8) -> bool {
    b == 0x20 || b == 0x3a || b == 0x2c || b == 0x2d || b == 0x5f
}

/// The value of an ASCII hex digit.
pub open spec fn hex_value(b: u8) -> Option<u8> {
    if 0x30 <= b && b <= 0x39 {
        Some((b - 0x30) as u8)
    } else if 0x61 <= b && b <= 0x66 {
        Some((b - 0x61 + 10) as u8)
    } else if 0x41 <= b && b <= 0x46 {
        Some((b - 0x41 + 10) as u8)
    } else {
        None
    }
}

/// What `u8::from_str_radix(_, 16)` makes of a two-byte text: two hex
/// digits, or `+` and one digit.
pub open spec fn hex_pair(b0: u8, b1: u8) -> Option<u8> {
    if b0 == 0x2b {
        hex_value(b1)
    } else {
        match (hex_value(b0), hex_value(b1)) {
            (Some(h), Some(l)) => Some((h * 16 + l) as u8),
            _ => None,
        }
    }
}

/// The bytes of a text with the separators dropped. (In UTF-8 an ASCII byte
/// only ever stands for that ASCII character, so this drops exactly the
/// separator characters.)
pub open spec fn without_separators(b: Seq<u8>) -> Seq<u8>
    decreases b.len(),
{
    if b.len() == 0 {
        b
    } else if is_hex_separator(b.last()) {
        without_separators(b.drop_last())
    } else {
        without_separators(b.drop_last()).push(b.last())
    }
}

/// The cleaned digits: separators dropped, then a leading `0x` dropped.
pub open spec fn hex_digits(b: Seq<u8>) -> Seq<u8> {
    let c = without_separators(b);
    if c.len() >= 2 && c[0] == 0x30 && c[1] == 0x78 {
        c.skip(2)
    } else {
        c
    }
}

/// How reading two-digit chunks from `i` on ends: the bytes, a chunk that is
/// not hex (`None`), or — when a chunk would split a multi-byte character,
/// which slicing a `str` refuses — `Some(None)`.
pub open spec fn chunks_from(c: Seq<u8>, i: int) -> Option<Option<Seq<u8>>>
    decreases c.len() - i,
{
    if i < 0 || i + 2 > c.len() {
        Some(Some(Seq::empty()))
    } else if is_continuation(c[i]) || (i + 2 < c.len() && is_continuation(c[i + 2])) {
        Some(None)
    } else {
        match hex_pair(c[i], c[i + 1]) {
            None => None,
            Some(v) => match chunks_from(c, i + 2) {
                Some(Some(rest)) => Some(Some(seq![v] + rest)),
                other => other,
            },
        }
    }
}

/// The message for an odd number of digits.
pub open spec fn odd_message(s: Seq<char>) -> Seq<char> {
    "odd number of hex digits in `"@ + s + "`"@
}

/// The message for a chunk that is not hex.
pub open spec fn bad_hex_message(s: Seq<char>) -> Seq<char> {
    "bad hex in `"@ + s + "`"@
}

/// Whether parsing the text never splits a character: the only input on
/// which the tool's parser panics is excluded this way.
pub open spec fn hex_parse_defined(bytes: Seq<u8>) -> bool {
    let c = hex_digits(bytes);
    c.len() % 2 == 1 || chunks_from(c, 0) != Some(None::<Seq<u8>>)
}

fn is_sep_byte(b: u8) -> (r: bool)
    ensures
        r == is_hex_separator(b),
{
    b == 0x20 || b == 0x3a || b == 0x2c || b == 0x2d || b == 0x5f
}

fn hex_val(b: u8) -> (r: Option<u8>)
    ensures
        r == hex_value(b),
{
    if 0x30 <= b && b <= 0x39 {
        Some(b - 0x30)
    } else if 0x61 <= b && b <= 0x66 {
        Some(b - 0x61 + 10)
    } else if 0x41 <= b && b <= 0x46 {
        Some(b - 0x41 + 10)
    } else {
        None
    }
}

fn pair_val(b0: u8, b1: u8) -> (r: Option<u8>)
    ensures
        r == hex_pair(b0, b1),
{
    if b0 == 0x2b {
        hex_val(b1)
    } else {
        match (hex_val(b0), hex_val(b1)) {
            (Some(h), Some(l)) => Some(h * 16 + l),
            _ => None,
        }
    }
}

proof fn lemma_chunks_step(c: Seq<u8>, i: int, v: u8)
    requires
        0 <= i,
        i + 2 <= c.len(),
        !is_continuation(c[i]),
        !(i + 2 < c.len() && is_continuation(c[i + 2])),
        hex_pair(c[i], c[i + 1]) == Some(v),
    ensures
        chunks_from(c, i) == match chunks_from(c, i + 2) {
            Some(Some(rest)) => Some(Some(seq![v] + rest)),
            other => other,
        },
{
}

/// Parse a hex byte string such as `4b 01 0a`, `4b:01:0a` or `0x4b010a`:
/// separators (space, `:`, `,`, `-`, `_`) are dropped, then a leading
/// `0x`; the rest must be an even number of digits, read two at a time.
pub fn parse_hex(s: &str) -> (r: Result<Vec<u8>, String>)
    requires
        hex_parse_defined(s.spec_bytes()),
    ensures
        ({
            let c = hex_digits(s.spec_bytes());
            if c.len() % 2 == 1 {
                r matches Err(m) && m@ == odd_message(s@)
            } else {
                match chunks_from(c, 0) {
                    Some(Some(bytes)) => r matches Ok(v) && v@ == bytes,
                    _ => r matches Err(m) && m@ == bad_hex_message(s@),
                }
            }
        }),
{
    let bytes = s.as_bytes();
    let mut clean: Vec<u8> = Vec::new();
    let mut i: usize = 0;
    while i < bytes.len()
        invariant
            i <= bytes.len(),
            bytes@ == s.spec_bytes(),
            clean@ == without_separators(bytes@.take(i as int)),
        decreases bytes.len() - i,
    {
        proof {
            assert(bytes@.take(i + 1).drop_last() =~= bytes@.take(i as int));
            assert(bytes@.take(i + 1).last() == bytes@[i as int]);
        }
        if !is_sep_byte(bytes[i]) {
            clean.push(bytes[i]);
        }
        i = i + 1;
    }
    proof {
        assert(bytes@.take(i as int) =~= bytes@);
    }
    let start: usize = if clean.len() >= 2 && clean[0] == 0x30 && clean[1] == 0x78 {
        2
    } else {
        0
    };
    let ghost c = hex_digits(bytes@);
    proof {
        assert(c =~= clean@.skip(start as int));
    }
    let n = clean.len() - start;
    if n % 2 == 1 {
        let mut m = text::concat("odd number of hex digits in `", s);
        text::push_char(&mut m, '`');
        proof {
            reveal_strlit("odd number of hex digits in `");
            reveal_strlit("`");
            assert(m@ =~= odd_message(s@));
        }
        return Err(m);
    }
    let mut out: Vec<u8> = Vec::new();
    let mut k: usize = 0;
    while k < n
        invariant
            n == clean.len() - start,
            start <= clean.len(),
            c == clean@.skip(start as int),
            k <= n,
            k % 2 == 0,
            n % 2 == 0,
            hex_parse_defined(s.spec_bytes()),
            c == hex_digits(s.spec_bytes()),
            chunks_from(c, 0) == match chunks_from(c, k as int) {
                Some(Some(rest)) => Some(Some(out@ + rest)),
                other => other,
            },
        decreases n - k,
    {
        let b0 = clean[start + k];
        let b1 = clean[start + k + 1];
        proof {
            assert(c[k as int] == b0);
            assert(c[k + 1] == b1);
            if is_continuation(c[k as int]) || (k + 2 < c.len() && is_continuation(c[k + 2])) {
                assert(chunks_from(c, k as int) == Some(None::<Seq<u8>>));
                assert(false);
            }
        }
        match pair_val(b0, b1) {
            Some(v) => {
                proof {
                    lemma_chunks_step(c, k as int, v);
                    match chunks_from(c, k + 2) {
                        Some(Some(rest)) => {
                            assert(out@ + (seq![v] + rest) =~= out@.push(v) + rest);
                        },
                        _ => {},
                    }
                }
                out.push(v);
                k = k + 2;
            },
            None => {
                let mut m = text::concat("bad hex in `", s);
                text::push_char(&mut m, '`');
                proof {
                    reveal_strlit("bad hex in `");
                    reveal_strlit("`");
                    assert(m@ =~= bad_hex_message(s@));
                    assert(chunks_from(c, k as int) is None);
                }
                return Err(m);
            },
        }
    }
    proof {
        assert(out@ + Seq::<u8>::empty() =~= out@);
    }
    Ok(out)
}

/// The cleaned digits of a hex byte string: separators dropped, then a
/// leading `0x`.
fn cleaned_digits(s: &str) -> (c: Vec<u8>)
    ensures
        c@ == hex_digits(s.spec_bytes()),
{
    let bytes = s.as_bytes();
    let mut clean: Vec<u8> = Vec::new();
    let mut i: usize = 0;
    while i < bytes.len()
        invariant
            i <= bytes.len(),
            bytes@ == s.spec_bytes(),
            clean@ == without_separators(bytes@.take(i as int)),
        decreases bytes.len() - i,
    {
        proof {
            assert(bytes@.take(i + 1).drop_last() =~= bytes@.take(i as int));
            assert(bytes@.take(i + 1).last() == bytes@[i as int]);
        }
        if !is_sep_byte(bytes[i]) {
            clean.push(bytes[i]);
        }
        i = i + 1;
    }
    proof {
        assert(bytes@.take(i as int) =~= bytes@);
    }
    if clean.len() >= 2 && clean[0] == 0x30 && clean[1] == 0x78 {
        let mut out: Vec<u8> = Vec::new();
        let mut k: usize = 2;
        while k < clean.len()
            invariant
                2 <= k <= clean.len(),
                out@ == clean@.subrange(2, k as int),
            decreases clean.len() - k,
        {
            out.push(clean[k]);
            k = k + 1;
            proof {
                assert(out@ =~= clean@.subrange(2, k as int));
            }
        }
        proof {
            assert(out@ =~= clean@.skip(2));
        }
        out
    } else {
        clean
    }
}

/// Whether [`parse_hex`] can read `s` without splitting a character — the
/// test a caller makes before handing it text from outside.
pub fn hex_parse_is_defined(s: &str) -> (b: bool)
    ensures
        b == hex_parse_defined(s.spec_bytes()),
{
    let c = cleaned_digits(s);
    if c.len() % 2 == 1 {
        return true;
    }
    let mut k: usize = 0;
    while k < c.len()
        invariant
            c@ == hex_digits(s.spec_bytes()),
            c.len() % 2 == 0,
            k % 2 == 0,
            k <= c.len(),
            (chunks_from(c@, 0) == Some(None::<Seq<u8>>)) == (chunks_from(c@, k as int) == Some(None::<Seq<u8>>)),
        decreases c.len() - k,
    {
        let split = (0x80 <= c[k] && c[k] <= 0xbf) || (k + 2 < c.len() && 0x80 <= c[k + 2] && c[k + 2] <= 0xbf);
        if split {
            return false;
        }
        match pair_val(c[k], c[k + 1]) {
            None => {
                return true;
            },
            Some(v) => {
                proof {
                    lemma_chunks_step(c@, k as int, v);
                }
            },
        }
        k = k + 2;
    }
    true
}

/// The lowercase hex digit for `d < 16`.
pub open spec fn hex_digit_char(d: int) -> char {
    if d < 10 {
        (('0' as int) + d) as char
    } else {
        (('a' as int) + d - 10) as char
    }
}

/// Bytes as two lowercase hex digits each, separated by spaces.
pub open spec fn hex_dump_text(b: Seq<u8>) -> Seq<char>
    decreases b.len(),
{
    if b.len() == 0 {
        Seq::empty()
    } else {
        let prev = hex_dump_text(b.drop_last());
        let pair = seq![hex_digit_char(b.last() as int / 16), hex_digit_char(b.last() as int % 16)];
        if b.len() == 1 {
            pair
        } else {
            prev + seq![' '] + pair
        }
    }
}

pub(crate) fn hex_char(d: u8) -> (c: char)
    requires
        d < 16,
    ensures
        c == hex_digit_char(d as int),
{
    if d < 10 {
        (d + 48) as char
    } else {
        (d + 87) as char
    }
}

/// Bytes as space-separated two-digit lowercase hex, e.g. `4b 01 0a`.
pub fn hex_dump(bytes: &[u8]) -> (s: String)
    ensures
        s@ == hex_dump_text(bytes@),
{
    let mut s = String::new();
    let mut i: usize = 0;
    while i < bytes.len()
        invariant
            i <= bytes.len(),
            s@ == hex_dump_text(bytes@.take(i as int)),
        decreases bytes.len() - i,
    {
        proof {
            assert(bytes@.take(i + 1).drop_last() =~= bytes@.take(i as int));
            assert(bytes@.take(i + 1).last() == bytes@[i as int]);
        }
        if i > 0 {
            text::push_char(&mut s, ' ');
        }
        let b = bytes[i];
        text::push_char(&mut s, hex_char(b / 16));
        text::push_char(&mut s, hex_char(b % 16));
        i = i + 1;
        proof {
            assert(s@ =~= hex_dump_text(bytes@.take(i as int)));
        }
    }
    proof {
        assert(bytes@.take(i as int) =~= bytes@);
    }
    s
}

/// The message for a missing argument.
pub open spec fn missing_message(what: Seq<char>) -> Seq<char> {
    "missing "@ + what + " argument — try `help`"@
}

/// The first argument, or an error naming what is missing.
pub fn arg<'a>(args: &'a [String], what: &str) -> (r: Result<&'a str, String>)
    ensures
        args@.len() > 0 ==> (r matches Ok(a) && a@ == args@[0]@),
        args@.len() == 0 ==> (r matches Err(m) && m@ == missing_message(what@)),
{
    if args.len() > 0 {
        Ok(args[0].as_str())
    } else {
        let mut m = text::concat("missing ", what);
        m.append(" argument — try `help`");
        Err(m)
    }
}

/// What `parse_hex` makes of a text: its bytes, or the message.
pub open spec fn hex_outcome(s: Seq<char>) -> Result<Seq<u8>, Seq<char>> {
    let c = hex_digits(encode_utf8(s));
    if c.len() % 2 == 1 {
        Err(odd_message(s))
    } else {
        match chunks_from(c, 0) {
            Some(Some(bytes)) => Ok(bytes),
            _ => Err(bad_hex_message(s)),
        }
    }
}

/// One raw report operation on an open HID interface.
#[derive(Debug, Clone, PartialEq, Eq)]
pub enum RawOp {
    /// Write an output report; the first byte is the report id.
    Send(Vec<u8>),
    /// Send a feature report; the first byte is the report id.
    SendFeature(Vec<u8>),
    /// Read one input report, waiting at most this many ms.
    Read(i32),
    /// Get the feature report with this id, reading up to this many bytes
    /// after it.
    ReadFeature(u8, usize),
}

/// A raw operation over plain values.
pub enum RawOpV {
    Send(Seq<u8>),
    SendFeature(Seq<u8>),
    Read(i32),
    ReadFeature(u8, usize),
}

impl View for RawOp {
    type V = RawOpV;

    open spec fn view(&self) -> RawOpV {
        match self {
            RawOp::Send(b) => RawOpV::Send(b@),
            RawOp::SendFeature(b) => RawOpV::SendFeature(b@),
            RawOp::Read(ms) => RawOpV::Read(*ms),
            RawOp::ReadFeature(id, len) => RawOpV::ReadFeature(*id, *len),
        }
    }
}

/// The message when no operation follows the interface.
pub open spec fn no_ops_message() -> Seq<char> {
    "no raw ops given — send <hex>, sendf <hex>, read [<ms>], readf <id> [<len>]"@
}

/// The message for a send without its payload.
pub open spec fn payload_message(op: Seq<char>) -> Seq<char> {
    if op == "send"@ {
        "send needs a hex payload"@
    } else {
        "sendf needs a hex payload"@
    }
}

/// The message for an operation of no known name.
pub open spec fn unknown_op_message(op: Seq<char>) -> Seq<char> {
    "unknown raw op `"@ + op + "` — send, sendf, read, readf"@
}

/// Whether the argument after an operation that reads hex can be parsed
/// without splitting a character (see [`hex_parse_defined`]).
pub open spec fn raw_step_defined(args: Seq<Seq<char>>, pos: int) -> bool {
    (0 <= pos && pos + 1 < args.len() && (args[pos] == "send"@ || args[pos] == "sendf"@
        || args[pos] == "readf"@)) ==> hex_parse_defined(encode_utf8(args[pos + 1]))
}

/// The operation at `pos` and where the next one starts, `None` once the
/// operations are used up (after at least one ran), or the message of the
/// first thing wrong. `read` takes a following number as its timeout
/// (1000 ms when none follows); `readf` takes one hex byte as its report id
/// and a following number as its length (64 when none follows).
pub open spec fn raw_step_of(args: Seq<Seq<char>>, pos: int, ran: bool) -> Result<Option<(RawOpV, int)>, Seq<char>> {
    if pos >= args.len() {
        if ran {
            Ok(None)
        } else {
            Err(no_ops_message())
        }
    } else {
        let a = args[pos];
        if a == "send"@ || a == "sendf"@ {
            if pos + 1 >= args.len() {
                Err(payload_message(a))
            } else {
                match hex_outcome(args[pos + 1]) {
                    Ok(b) => Ok(Some((if a == "send"@ {
                        RawOpV::Send(b)
                    } else {
                        RawOpV::SendFeature(b)
                    }, pos + 2))),
                    Err(m) => Err(m),
                }
            }
        } else if a == "read"@ {
            match (if pos + 1 < args.len() {
                text::i32_of_text(args[pos + 1])
            } else {
                None
            }) {
                Some(ms) => Ok(Some((RawOpV::Read(ms), pos + 2))),
                None => Ok(Some((RawOpV::Read(1000), pos + 1))),
            }
        } else if a == "readf"@ {
            if pos + 1 >= args.len() {
                Err("readf needs a report id (hex)"@)
            } else {
                match hex_outcome(args[pos + 1]) {
                    Err(m) => Err(m),
                    Ok(b) => if b.len() != 1 {
                        Err("readf report id must be one byte"@)
                    } else {
                        match (if pos + 2 < args.len() {
                            text::index_of_text(args[pos + 2])
                        } else {
                            None
                        }) {
                            Some(len) => Ok(Some((RawOpV::ReadFeature(b[0], len), pos + 3))),
                            None => Ok(Some((RawOpV::ReadFeature(b[0], 64), pos + 2))),
                        }
                    },
                }
            }
        } else {
            Err(unknown_op_message(a))
        }
    }
}

/// Whether [`raw_step`] can read the operation at `pos`: the hex it would
/// parse, if any, splits no character.
pub fn raw_step_is_defined(args: &[String], pos: usize) -> (b: bool)
    ensures
        b == raw_step_defined(text::strings_view(args@), pos as int),
{
    let ghost av = text::strings_view(args@);
    proof {
        reveal_strlit("send");
        reveal_strlit("sendf");
        reveal_strlit("readf");
    }
    if pos < args.len() && pos + 1 < args.len() {
        let op = args[pos].as_str();
        assert(av[pos as int] == op@);
        if text::str_eq(op, "send") || text::str_eq(op, "sendf") || text::str_eq(op, "readf") {
            assert(av[pos + 1] == args@[pos + 1]@);
            return hex_parse_is_defined(args[pos + 1].as_str());
        }
    }
    true
}

/// Read the raw operation at `pos` off the tool's arguments (those after
/// the interface selector). The caller performs it and asks again from the
/// position returned, so operations run in order and a malformed one stops
/// the run only when it is reached; `ran` says whether one already ran.
pub fn raw_step(args: &[String], pos: usize, ran: bool) -> (r: Result<Option<(RawOp, usize)>, String>)
    requires
        pos <= args@.len(),
        raw_step_defined(text::strings_view(args@), pos as int),
    ensures
        match raw_step_of(text::strings_view(args@), pos as int, ran) {
            Ok(Some((op, next))) => r matches Ok(Some((o, n))) && o@ == op && n == next,
            Ok(None) => r matches Ok(None),
            Err(m) => r matches Err(e) && e@ == m,
        },
{
    let ghost av = text::strings_view(args@);
    proof {
        reveal_strlit("send");
        reveal_strlit("sendf");
        reveal_strlit("read");
        reveal_strlit("readf");
    }
    if pos >= args.len() {
        if ran {
            return Ok(None);
        } else {
            return Err(text::owned("no raw ops given — send <hex>, sendf <hex>, read [<ms>], readf <id> [<len>]"));
        }
    }
    let op = args[pos].as_str();
    assert(av[pos as int] == op@);
    let is_send = text::str_eq(op, "send");
    let is_sendf = text::str_eq(op, "sendf");
    if is_send || is_sendf {
        if pos + 1 >= args.len() {
            if is_send {
                return Err(text::owned("send needs a hex payload"));
            } else {
                return Err(text::owned("sendf needs a hex payload"));
            }
        }
        let payload = args[pos + 1].as_str();
        assert(av[pos + 1] == payload@);
        match parse_hex(payload) {
            Ok(b) => {
                let next = pos + 2;
                if is_send {
                    Ok(Some((RawOp::Send(b), next)))
                } else {
                    Ok(Some((RawOp::SendFeature(b), next)))
                }
            },
            Err(m) => Err(m),
        }
    } else if text::str_eq(op, "read") {
        if pos + 1 < args.len() {
            assert(av[pos + 1] == args@[pos + 1]@);
            match text::parse_i32(args[pos + 1].as_str()) {
                Some(ms) => {
                    return Ok(Some((RawOp::Read(ms), pos + 2)));
                },
                None => {},
            }
        }
        Ok(Some((RawOp::Read(1000), pos + 1)))
    } else if text::str_eq(op, "readf") {
        if pos + 1 >= args.len() {
            return Err(text::owned("readf needs a report id (hex)"));
        }
        let id_text = args[pos + 1].as_str();
        assert(av[pos + 1] == id_text@);
        match parse_hex(id_text) {
            Err(m) => Err(m),
            Ok(b) => {
                if b.len() != 1 {
                    return Err(text::owned("readf report id must be one byte"));
                }
                let id = b[0];
                if pos + 2 < args.len() {
                    assert(av[pos + 2] == args@[pos + 2]@);
                    match text::parse_index(args[pos + 2].as_str()) {
                        Some(len) => {
                            return Ok(Some((RawOp::ReadFeature(id, len), pos + 3)));
                        },
                        None => {},
                    }
                }
                Ok(Some((RawOp::ReadFeature(id, 64), pos + 2)))
            },
        }
    } else {
        proof {
            reveal_strlit("unknown raw op `");
            reveal_strlit("` — send, sendf, read, readf");
        }
        let mut m = text::concat("unknown raw op `", op);
        m.append("` — send, sendf, read, readf");
        Err(m)
    }
}

/// The filter class a band's type token names (case ignored): `pk` or
/// `peak`, `ls` or `lowshelf`, `hs` or `highshelf`.
pub open spec fn band_kind_of(lowered: Seq<char>) -> Option<HwFilterType> {
    if lowered == "pk"@ || lowered == "peak"@ {
        Some(HwFilterType::Peak)
    } else if lowered == "ls"@ || lowered == "lowshelf"@ {
        Some(HwFilterType::LowShelf)
    } else if lowered == "hs"@ || lowered == "highshelf"@ {
        Some(HwFilterType::HighShelf)
    } else {
        None
    }
}

/// What a `<type>:<freq>:<gain>:<q>` band text holds: its filter class and
/// the three number texts, or the message saying what is wrong with it.
pub open spec fn band_fields_of(s: Seq<char>) -> Result<(HwFilterType, Seq<char>, Seq<char>, Seq<char>), Seq<char>> {
    let parts = pieces(s, ':');
    if parts.len() != 4 {
        Err("bad band `"@ + s + "` — expected <type>:<freq>:<gain>:<q>"@)
    } else {
        match band_kind_of(lowercase_of(parts[0])) {
            Some(k) => Ok((k, parts[1], parts[2], parts[3])),
            None => Err("bad filter type `"@ + lowercase_of(parts[0]) + "` — use pk, ls or hs"@),
        }
    }
}

/// Read a band text such as `pk:1000:-3.5:1.4` into its filter class and
/// its frequency, gain and Q texts (the numbers are read by the caller).
pub fn band_fields(s: &str) -> (r: Result<(HwFilterType, String, String, String), String>)
    ensures
        match band_fields_of(s@) {
            Ok((k, f, g, q)) => r matches Ok((k2, f2, g2, q2)) && k2 == k && f2@ == f && g2@ == g && q2@ == q,
            Err(m) => r matches Err(e) && e@ == m,
        },
{
    let cs = text::chars_of(s);
    let parts = text::split_on(&cs, ':', 0);
    assert(cs@.skip(0) =~= cs@);
    let ghost ps = pieces(s@, ':');
    assert(strings_view(parts@) == ps);
    if parts.len() != 4 {
        proof {
            reveal_strlit("bad band `");
            reveal_strlit("` — expected <type>:<freq>:<gain>:<q>");
        }
        let mut m = text::concat("bad band `", s);
        m.append("` — expected <type>:<freq>:<gain>:<q>");
        return Err(m);
    }
    assert(parts@[0]@ == ps[0] && parts@[1]@ == ps[1] && parts@[2]@ == ps[2] && parts@[3]@ == ps[3]);
    let lowered = text::to_lowercase(parts[0].as_str());
    let l = lowered.as_str();
    proof {
        reveal_strlit("pk");
        reveal_strlit("peak");
        reveal_strlit("ls");
        reveal_strlit("lowshelf");
        reveal_strlit("hs");
        reveal_strlit("highshelf");
    }
    let kind = if text::str_eq(l, "pk") || text::str_eq(l, "peak") {
        HwFilterType::Peak
    } else if text::str_eq(l, "ls") || text::str_eq(l, "lowshelf") {
        HwFilterType::LowShelf
    } else if text::str_eq(l, "hs") || text::str_eq(l, "highshelf") {
        HwFilterType::HighShelf
    } else {
        proof {
            reveal_strlit("bad filter type `");
            reveal_strlit("` — use pk, ls or hs");
        }
        let mut m = text::concat("bad filter type `", l);
        m.append("` — use pk, ls or hs");
        return Err(m);
    };
    Ok((kind, text::owned(parts[1].as_str()), text::owned(parts[2].as_str()), text::owned(parts[3].as_str())))
}

/// One argument of the tool's `push` command, as read.
#[derive(Debug, Clone, PartialEq, Eq)]
pub enum PushArg {
    /// `--commit`: save to flash as well.
    Commit,
    /// `--pregain <dB>`: the pregain text.
    Pregain(String),
    /// A band: its class and its frequency, gain and Q texts.
    Band(HwFilterType, String, String, String),
}

/// A push argument over plain values.
pub enum PushArgV {
    Commit,
    Pregain(Seq<char>),
    Band(HwFilterType, Seq<char>, Seq<char>, Seq<char>),
}

impl View for PushArg {
    type V = PushArgV;

    open spec fn view(&self) -> PushArgV {
        match self {
            PushArg::Commit => PushArgV::Commit,
            PushArg::Pregain(v) => PushArgV::Pregain(v@),
            PushArg::Band(k, f, g, q) => PushArgV::Band(*k, f@, g@, q@),
        }
    }
}

/// The push argument at `pos` and where the next starts, `None` at the end,
/// or the message of what is wrong with it.
pub open spec fn push_arg_of(args: Seq<Seq<char>>, pos: int) -> Result<Option<(PushArgV, int)>, Seq<char>> {
    if pos >= args.len() {
        Ok(None)
    } else if args[pos] == "--commit"@ {
        Ok(Some((PushArgV::Commit, pos + 1)))
    } else if args[pos] == "--pregain"@ {
        if pos + 1 < args.len() {
            Ok(Some((PushArgV::Pregain(args[pos + 1]), pos + 2)))
        } else {
            Err("--pregain needs a value (dB)"@)
        }
    } else {
        match band_fields_of(args[pos]) {
            Ok((k, f, g, q)) => Ok(Some((PushArgV::Band(k, f, g, q), pos + 1))),
            Err(m) => Err(m),
        }
    }
}

/// Read the `push` argument at `pos`; the caller reads its numbers and asks
/// again from the position returned, so errors come in argument order.
pub fn push_arg_step(args: &[String], pos: usize) -> (r: Result<Option<(PushArg, usize)>, String>)
    requires
        pos <= args@.len(),
    ensures
        match push_arg_of(strings_view(args@), pos as int) {
            Ok(Some((a, next))) => r matches Ok(Some((a2, n2))) && a2@ == a && n2 == next,
            Ok(None) => r matches Ok(None),
            Err(m) => r matches Err(e) && e@ == m,
        },
{
    let ghost av = strings_view(args@);
    if pos >= args.len() {
        return Ok(None);
    }
    let a = args[pos].as_str();
    assert(av[pos as int] == a@);
    proof {
        reveal_strlit("--commit");
        reveal_strlit("--pregain");
    }
    if text::str_eq(a, "--commit") {
        Ok(Some((PushArg::Commit, pos + 1)))
    } else if text::str_eq(a, "--pregain") {
        if pos + 1 < args.len() {
            assert(av[pos + 1] == args@[pos + 1]@);
            Ok(Some((PushArg::Pregain(text::owned(args[pos + 1].as_str())), pos + 2)))
        } else {
            proof {
                reveal_strlit("--pregain needs a value (dB)");
            }
            Err(text::owned("--pregain needs a value (dB)"))
        }
    } else {
        match band_fields(a) {
            Ok((k, f, g, q)) => Ok(Some((PushArg::Band(k, f, g, q), pos + 1))),
            Err(m) => Err(m),
        }
    }
}

/// The message when more bands are pushed than the device runs.
pub open spec fn budget_message(n: nat, max: nat) -> Seq<char> {
    text::dec(n) + " bands exceed the device's budget of "@ + text::dec(max)
}

/// Whether `n` bands fit a device that runs `max`, else the message.
pub fn within_budget(n: usize, max: usize) -> (r: Result<(), String>)
    ensures
        n <= max ==> r is Ok,
        n > max ==> (r matches Err(m) && m@ == budget_message(n as nat, max as nat)),
{
    if n <= max {
        Ok(())
    } else {
        let mut m = text::u64_text(n as u64);
        m.append(" bands exceed the device's budget of ");
        let b = text::u64_text(max as u64);
        m.append(b.as_str());
        proof {
            reveal_strlit(" bands exceed the device's budget of ");
        }
        Err(m)
    }
}

/// One line typed into the tool's interactive session.
#[derive(Debug, Clone, PartialEq, Eq)]
pub enum SessionCommand {
    /// Nothing typed.
    Empty,
    /// `quit` or `exit`.
    Quit,
    /// `status`.
    Status,
    /// `push <pregain> [BAND...]` (volatile) or `commit <pregain> [BAND...]`.
    Push { commit: bool, pregain: String, bands: Vec<String> },
    /// Anything else.
    Unknown,
}

/// The message for a line of no known form.
pub open spec fn unrecognized_message() -> Seq<char> {
    "unrecognized — commands: push, commit, status, quit"@
}

/// The message for a session line of no known form.
pub fn unrecognized() -> (m: String)
    ensures
        m@ == unrecognized_message(),
{
    text::owned("unrecognized — commands: push, commit, status, quit")
}

/// What a session line's words ask for.
pub open spec fn session_command_of(words: Seq<Seq<char>>) -> SessionCommandV {
    if words.len() == 0 {
        SessionCommandV::Empty
    } else if words.len() == 1 && (words[0] == "quit"@ || words[0] == "exit"@) {
        SessionCommandV::Quit
    } else if words.len() == 1 && words[0] == "status"@ {
        SessionCommandV::Status
    } else if words.len() >= 2 && (words[0] == "push"@ || words[0] == "commit"@) {
        SessionCommandV::Push { commit: words[0] == "commit"@, pregain: words[1], bands: words.skip(2) }
    } else {
        SessionCommandV::Unknown
    }
}

/// A session command over plain values.
pub enum SessionCommandV {
    Empty,
    Quit,
    Status,
    Push { commit: bool, pregain: Seq<char>, bands: Seq<Seq<char>> },
    Unknown,
}

impl View for SessionCommand {
    type V = SessionCommandV;

    open spec fn view(&self) -> SessionCommandV {
        match self {
            SessionCommand::Empty => SessionCommandV::Empty,
            SessionCommand::Quit => SessionCommandV::Quit,
            SessionCommand::Status => SessionCommandV::Status,
            SessionCommand::Push { commit, pregain, bands } => SessionCommandV::Push {
                commit: *commit,
                pregain: pregain@,
                bands: strings_view(bands@),
            },
            SessionCommand::Unknown => SessionCommandV::Unknown,
        }
    }
}

/// Read a session line's words into the command they ask for.
pub fn session_command(words: &[String]) -> (c: SessionCommand)
    ensures
        c@ == session_command_of(strings_view(words@)),
{
    let ghost wv = strings_view(words@);
    proof {
        reveal_strlit("quit");
        reveal_strlit("exit");
        reveal_strlit("status");
        reveal_strlit("push");
        reveal_strlit("commit");
    }
    if words.len() == 0 {
        return SessionCommand::Empty;
    }
    let w0 = words[0].as_str();
    assert(wv[0] == w0@);
    if words.len() == 1 && (text::str_eq(w0, "quit") || text::str_eq(w0, "exit")) {
        return SessionCommand::Quit;
    }
    if words.len() == 1 && text::str_eq(w0, "status") {
        return SessionCommand::Status;
    }
    let is_commit = text::str_eq(w0, "commit");
    if words.len() >= 2 && (text::str_eq(w0, "push") || is_commit) {
        assert(wv[1] == words@[1]@);
        let mut bands: Vec<String> = Vec::new();
        let mut i: usize = 2;
        while i < words.len()
            invariant
                2 <= i <= words@.len(),
                wv == strings_view(words@),
                strings_view(bands@) == wv.subrange(2, i as int),
            decreases words.len() - i,
        {
            let ghost before = bands@;
            bands.push(text::owned(words[i].as_str()));
            i = i + 1;
            proof {
                assert(strings_view(bands@) =~= strings_view(before).push(words@[i - 1]@));
                assert(strings_view(bands@) =~= wv.subrange(2, i as int));
            }
        }
        proof {
            assert(wv.subrange(2, i as int) =~= wv.skip(2));
        }
        return SessionCommand::Push { commit: is_commit, pregain: text::owned(words[1].as_str()), bands };
    }
    SessionCommand::Unknown
}

} // verus!
