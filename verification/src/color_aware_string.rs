//! A string wrapper that knows which of its characters are visible and
//! which belong to terminal escape runs, and can pad itself to a target
//! visible width without corrupting the escapes.
//!
//! The escape scanner is a small explicit state machine: an escape
//! introducer starts a run, an optional `[` extends it, and the run ends
//! at the first final byte (`@` through `~`). An unterminated run extends
//! to the end of the string and contributes nothing to the visible length.
//! Visible length counts UTF-8 bytes of what remains after stripping, so
//! it matches the byte length of the stripped string.

use crate::text::chars_to_string;
use vstd::prelude::*;

verus! {

broadcast use vstd::string::group_string_axioms;

/// State of the escape scanner between two characters.
#[derive(Clone, Copy, PartialEq, Eq, Structural)]
pub enum ScanState {
    /// Outside any escape run: characters are visible.
    Ground,
    /// Just after an escape introducer.
    AfterEsc,
    /// Inside an escape run, waiting for its final byte.
    InRun,
}

/// The final byte that terminates an escape run: `@` through `~`.
pub open spec fn is_final_byte(c: char) -> bool {
    0x40 <= (c as u32) <= 0x7e
}

/// One step of the escape scanner.
pub open spec fn step_state(st: ScanState, c: char) -> ScanState {
    match st {
        ScanState::Ground => if c == '\u{1b}' {
            ScanState::AfterEsc
        } else {
            ScanState::Ground
        },
        ScanState::AfterEsc => if c == '[' {
            ScanState::InRun
        } else if is_final_byte(c) {
            ScanState::Ground
        } else {
            ScanState::InRun
        },
        ScanState::InRun => if is_final_byte(c) {
            ScanState::Ground
        } else {
            ScanState::InRun
        },
    }
}

/// Whether the scanner keeps character `c` when it arrives in state `st`.
pub open spec fn emits(st: ScanState, c: char) -> bool {
    st is Ground && c != '\u{1b}'
}

/// The scanner state after reading all of `s`, starting from `st`.
pub open spec fn scan_state(s: Seq<char>, st: ScanState) -> ScanState
    decreases s.len(),
{
    if s.len() == 0 {
        st
    } else {
        scan_state(s.drop_first(), step_state(st, s[0]))
    }
}

/// The characters of `s` that the scanner keeps, starting from `st`.
pub open spec fn strip_from(s: Seq<char>, st: ScanState) -> Seq<char>
    decreases s.len(),
{
    if s.len() == 0 {
        Seq::empty()
    } else {
        let head: Seq<char> = if emits(st, s[0]) {
            seq![s[0]]
        } else {
            Seq::empty()
        };
        head + strip_from(s.drop_first(), step_state(st, s[0]))
    }
}

/// `s` with every escape run removed.
pub open spec fn strip_ansi(s: Seq<char>) -> Seq<char> {
    strip_from(s, ScanState::Ground)
}

/// The UTF-8 width of one character, in bytes.
pub open spec fn char_bytes(c: char) -> int {
    if (c as u32) < 0x80 {
        1int
    } else if (c as u32) < 0x800 {
        2int
    } else if (c as u32) < 0x10000 {
        3int
    } else {
        4int
    }
}

/// The UTF-8 byte length of a character sequence.
pub open spec fn byte_len(s: Seq<char>) -> int
    decreases s.len(),
{
    if s.len() == 0 {
        0int
    } else {
        char_bytes(s[0]) + byte_len(s.drop_first())
    }
}

/// The byte widths above agree with the UTF-8 encoding model: the byte
/// length of a character sequence is the length of its UTF-8 encoding.
pub proof fn lemma_byte_len_is_utf8_len(s: Seq<char>)
    ensures
        byte_len(s) == vstd::utf8::encode_utf8(s).len(),
    decreases s.len(),
{
    if s.len() > 0 {
        lemma_byte_len_is_utf8_len(s.drop_first());
        let u: u32 = s[0] as u32;
        assert(vstd::utf8::is_scalar(u)) by {
            vstd::utf8::char_is_scalar(s[0]);
        }
        assert(vstd::utf8::encode_scalar(u).len() == char_bytes(s[0]));
    }
}

/// The visible length of `s`: the byte length of `s` with all escape runs
/// stripped.
pub open spec fn visible_len(s: Seq<char>) -> int {
    byte_len(strip_ansi(s))
}

/// `n`, clipped to what a `usize` can hold.
pub open spec fn sat_len(n: int) -> int {
    if n > usize::MAX as int {
        usize::MAX as int
    } else {
        n
    }
}

/// `k` space characters.
pub open spec fn space_seq(k: int) -> Seq<char> {
    Seq::new(k as nat, |i: int| ' ')
}

/// How many spaces padding to visible width `w` appends to `s`.
pub open spec fn pad_count(s: Seq<char>, w: int) -> int {
    if visible_len(s) >= w {
        0int
    } else {
        w - visible_len(s)
    }
}

/// Reading one more character steps the final state once and appends at
/// most that character to the stripped text.
proof fn lemma_scan_append(s: Seq<char>, st: ScanState, c: char)
    ensures
        scan_state(s.push(c), st) == step_state(scan_state(s, st), c),
        strip_from(s.push(c), st) == strip_from(s, st) + if emits(scan_state(s, st), c) {
            seq![c]
        } else {
            Seq::<char>::empty()
        },
    decreases s.len(),
{
    let tail: Seq<char> = if emits(scan_state(s, st), c) {
        seq![c]
    } else {
        Seq::<char>::empty()
    };
    assert(s.push(c).len() == s.len() + 1);
    assert(s.push(c)[s.len() as int] == c);
    if s.len() == 0 {
        assert(s.push(c)[0] == c);
        assert(s.push(c).drop_first() =~= Seq::<char>::empty());
        assert(scan_state(Seq::<char>::empty(), step_state(st, c)) == step_state(st, c));
        assert(strip_from(Seq::<char>::empty(), step_state(st, c)) =~= Seq::<char>::empty());
        assert(strip_from(s.push(c), st) =~= strip_from(s, st) + tail);
    } else {
        assert(s.push(c)[0] == s[0]);
        assert(s.push(c).drop_first() =~= s.drop_first().push(c));
        lemma_scan_append(s.drop_first(), step_state(st, s[0]), c);
        assert(strip_from(s.push(c), st) =~= strip_from(s, st) + tail);
    }
}

/// Appending a character adds its width to the byte length.
proof fn lemma_byte_len_push(s: Seq<char>, c: char)
    ensures
        byte_len(s.push(c)) == byte_len(s) + char_bytes(c),
    decreases s.len(),
{
    assert(s.push(c).len() == s.len() + 1);
    if s.len() == 0 {
        assert(s.push(c)[0] == c);
        assert(s.push(c).drop_first() =~= Seq::<char>::empty());
        assert(byte_len(Seq::<char>::empty()) == 0);
    } else {
        assert(s.push(c)[0] == s[0]);
        assert(s.push(c).drop_first() =~= s.drop_first().push(c));
        lemma_byte_len_push(s.drop_first(), c);
    }
}

/// Byte lengths are never negative.
proof fn lemma_byte_len_nonneg(s: Seq<char>)
    ensures
        byte_len(s) >= 0,
    decreases s.len(),
{
    if s.len() > 0 {
        lemma_byte_len_nonneg(s.drop_first());
    }
}

/// Stripped text never contains the escape introducer.
proof fn lemma_strip_from_no_esc(s: Seq<char>, st: ScanState)
    ensures
        forall|i: int|
            0 <= i < strip_from(s, st).len() ==> #[trigger] strip_from(s, st)[i] != '\u{1b}',
    decreases s.len(),
{
    if s.len() > 0 {
        lemma_strip_from_no_esc(s.drop_first(), step_state(st, s[0]));
        let head: Seq<char> = if emits(st, s[0]) {
            seq![s[0]]
        } else {
            Seq::empty()
        };
        let rest: Seq<char> = strip_from(s.drop_first(), step_state(st, s[0]));
        assert forall|i: int| 0 <= i < strip_from(s, st).len() implies #[trigger] strip_from(
            s,
            st,
        )[i] != '\u{1b}' by {
            assert(strip_from(s, st) == head + rest);
            if i >= head.len() {
                assert(strip_from(s, st)[i] == rest[i - head.len()]);
            }
        }
    }
}

/// Stripping text that contains no escape introducer keeps it unchanged.
proof fn lemma_strip_ground_id(s: Seq<char>)
    requires
        forall|i: int| 0 <= i < s.len() ==> #[trigger] s[i] != '\u{1b}',
    ensures
        strip_from(s, ScanState::Ground) == s,
    decreases s.len(),
{
    if s.len() > 0 {
        lemma_strip_ground_id(s.drop_first());
        assert(strip_from(s, ScanState::Ground) =~= s);
    }
}

/// Stripping only removes characters, so the visible length never exceeds
/// the full byte length.
pub proof fn lemma_visible_le_full(s: Seq<char>)
    ensures
        visible_len(s) <= byte_len(s),
{
    lemma_strip_from_le(s, ScanState::Ground);
}

/// What the scanner keeps is never longer, in bytes, than what it read.
proof fn lemma_strip_from_le(s: Seq<char>, st: ScanState)
    ensures
        0 <= byte_len(strip_from(s, st)) <= byte_len(s),
    decreases s.len(),
{
    if s.len() == 0 {
    } else {
        lemma_strip_from_le(s.drop_first(), step_state(st, s[0]));
        if emits(st, s[0]) {
            assert((seq![s[0]] + strip_from(s.drop_first(), step_state(st, s[0]))).drop_first()
                =~= strip_from(s.drop_first(), step_state(st, s[0])));
        } else {
            assert(Seq::<char>::empty() + strip_from(s.drop_first(), step_state(st, s[0])) =~=
            strip_from(s.drop_first(), step_state(st, s[0])));
        }
    }
}

/// Stripping is idempotent: stripping an already-stripped string changes
/// nothing, so its visible length equals its byte length.
pub proof fn lemma_strip_idempotent(s: Seq<char>)
    ensures
        strip_ansi(strip_ansi(s)) == strip_ansi(s),
        visible_len(strip_ansi(s)) == visible_len(s),
{
    lemma_strip_from_no_esc(s, ScanState::Ground);
    lemma_strip_ground_id(strip_ansi(s));
}

/// Appending spaces to a string whose escape runs are all terminated adds
/// one visible byte per space.
proof fn lemma_strip_append_spaces(s: Seq<char>, k: int)
    requires
        scan_state(s, ScanState::Ground) is Ground,
        k >= 0,
    ensures
        strip_ansi(s + space_seq(k)) == strip_ansi(s) + space_seq(k),
        scan_state(s + space_seq(k), ScanState::Ground) is Ground,
        visible_len(s + space_seq(k)) == visible_len(s) + k,
    decreases k,
{
    if k == 0 {
        assert(s + space_seq(0) =~= s);
        assert(strip_ansi(s) + space_seq(0) =~= strip_ansi(s));
    } else {
        lemma_strip_append_spaces(s, k - 1);
        assert(s + space_seq(k) =~= (s + space_seq(k - 1)).push(' '));
        lemma_scan_append(s + space_seq(k - 1), ScanState::Ground, ' ');
        assert(strip_ansi(s + space_seq(k)) =~= (strip_ansi(s) + space_seq(k - 1)).push(' '));
        assert(strip_ansi(s) + space_seq(k) =~= (strip_ansi(s) + space_seq(k - 1)).push(' '));
        lemma_byte_len_push(strip_ansi(s + space_seq(k - 1)), ' ');
    }
}

/// Padding to visible width `w` yields visible length `max(visible_len, w)`,
/// provided every escape run of `s` is terminated (an unterminated run
/// would swallow the appended spaces).
pub proof fn lemma_pad_end_visible_len(s: Seq<char>, w: int)
    requires
        scan_state(s, ScanState::Ground) is Ground || visible_len(s) >= w,
    ensures
        visible_len(s + space_seq(pad_count(s, w))) == if visible_len(s) >= w {
            visible_len(s)
        } else {
            w
        },
{
    if visible_len(s) >= w {
        assert(s + space_seq(0) =~= s);
    } else {
        lemma_strip_append_spaces(s, pad_count(s, w));
    }
}

/// Padding never rewrites the original characters: the padded string
/// starts with `s` itself.
pub proof fn lemma_pad_end_prefix(s: Seq<char>, w: int)
    ensures
        (s + space_seq(pad_count(s, w))).take(s.len() as int) == s,
{
    assert((s + space_seq(pad_count(s, w))).take(s.len() as int) =~= s);
}

/// A string value that may contain embedded non-printing escape runs.
pub struct ColorAwareString {
    chars: Vec<char>,
}

impl View for ColorAwareString {
    type V = Seq<char>;

    closed spec fn view(&self) -> Seq<char> {
        self.chars@
    }
}

/// The UTF-8 width of one character, in bytes.
fn char_width(c: char) -> (w: u8)
    ensures
        w == char_bytes(c),
{
    let u: u32 = c as u32;
    if u < 0x80 {
        1
    } else if u < 0x800 {
        2
    } else if u < 0x10000 {
        3
    } else {
        4
    }
}

/// The UTF-8 byte length of the characters, clipped to `usize::MAX`.
fn vec_byte_len(v: &Vec<char>) -> (r: usize)
    ensures
        r == sat_len(byte_len(v@)),
{
    let mut r: usize = 0;
    let n: usize = v.len();
    let mut i: usize = 0;
    while i < n
        invariant
            0 <= i <= n == v@.len(),
            r == sat_len(byte_len(v@.take(i as int))),
        decreases n - i,
    {
        let w: u8 = char_width(v[i]);
        proof {
            assert(v@.take(i as int + 1) =~= v@.take(i as int).push(v@[i as int]));
            lemma_byte_len_push(v@.take(i as int), v@[i as int]);
            lemma_byte_len_nonneg(v@.take(i as int));
        }
        if r > usize::MAX - w as usize {
            r = usize::MAX;
        } else {
            r = r + w as usize;
        }
        i = i + 1;
    }
    proof {
        assert(v@.take(n as int) =~= v@);
    }
    r
}

/// One step of the escape scanner.
fn step_state_ex(st: ScanState, c: char) -> (r: ScanState)
    ensures
        r == step_state(st, c),
{
    let u: u32 = c as u32;
    match st {
        ScanState::Ground => if c == '\u{1b}' {
            ScanState::AfterEsc
        } else {
            ScanState::Ground
        },
        ScanState::AfterEsc => if c == '[' {
            ScanState::InRun
        } else if 0x40 <= u && u <= 0x7e {
            ScanState::Ground
        } else {
            ScanState::InRun
        },
        ScanState::InRun => if 0x40 <= u && u <= 0x7e {
            ScanState::Ground
        } else {
            ScanState::InRun
        },
    }
}

/// The characters of `v` with every escape run removed.
fn strip_vec(v: &Vec<char>) -> (r: Vec<char>)
    ensures
        r@ == strip_ansi(v@),
{
    let mut out: Vec<char> = Vec::new();
    let mut st: ScanState = ScanState::Ground;
    let n: usize = v.len();
    let mut i: usize = 0;
    while i < n
        invariant
            0 <= i <= n == v@.len(),
            st == scan_state(v@.take(i as int), ScanState::Ground),
            out@ == strip_from(v@.take(i as int), ScanState::Ground),
        decreases n - i,
    {
        let c: char = v[i];
        proof {
            assert(v@.take(i as int + 1) =~= v@.take(i as int).push(v@[i as int]));
            lemma_scan_append(v@.take(i as int), ScanState::Ground, c);
        }
        if matches!(st, ScanState::Ground) && c != '\u{1b}' {
            out.push(c);
        }
        st = step_state_ex(st, c);
        i = i + 1;
    }
    proof {
        assert(v@.take(n as int) =~= v@);
    }
    out
}

impl ColorAwareString {
    /// Wrap a string, remembering its characters.
    pub fn with_string(input: String) -> (r: ColorAwareString)
        ensures
            r@ == input@,
    {
        ColorAwareString { chars: crate::text::str_chars(input.as_str()) }
    }

    /// The full length in UTF-8 bytes, escape runs included.
    pub fn full_len(&self) -> (r: usize)
        ensures
            r == sat_len(byte_len(self@)),
    {
        vec_byte_len(&self.chars)
    }

    /// The wrapped string with every escape run stripped.
    pub fn raw_string(&self) -> (r: String)
        ensures
            r@ == strip_ansi(self@),
    {
        chars_to_string(&strip_vec(&self.chars))
    }

    /// The visible length: the byte length after stripping escape runs.
    pub fn raw_len(&self) -> (r: usize)
        ensures
            r == sat_len(visible_len(self@)),
    {
        vec_byte_len(&strip_vec(&self.chars))
    }

    /// The wrapped string followed by enough spaces to reach visible
    /// length `len`; unchanged if it is already at least that long.
    pub fn pad_end(&self, len: usize) -> (r: String)
        ensures
            r@ == self@ + space_seq(pad_count(self@, len as int)),
    {
        proof {
            reveal_strlit(" ");
            lemma_byte_len_nonneg(strip_ansi(self@));
        }
        let mut out: String = chars_to_string(&self.chars);
        let start: usize = self.raw_len();
        let mut i: usize = start;
        while i < len
            invariant
                start <= i,
                i <= len || i == start,
                start == sat_len(visible_len(self@)),
                visible_len(self@) >= 0,
                out@ == self@ + space_seq(i - start),
            decreases len - i,
        {
            out.append(" ");
            proof {
                reveal_strlit(" ");
                assert(" "@ =~= seq![' ']);
                assert(self@ + space_seq(i + 1 - start) =~= (self@ + space_seq(
                    i - start,
                )).push(' '));
            }
            i = i + 1;
        }
        proof {
            assert(space_seq(i - start) =~= space_seq(pad_count(self@, len as int)));
            assert(out@ =~= self@ + space_seq(pad_count(self@, len as int)));
        }
        out
    }

    /// Enough spaces to reach visible length `len`, followed by the wrapped
    /// string; unchanged if it is already at least that long.
    pub fn pad_start(&self, len: usize) -> (r: String)
        ensures
            r@ == space_seq(pad_count(self@, len as int)) + self@,
    {
        proof {
            reveal_strlit(" ");
            lemma_byte_len_nonneg(strip_ansi(self@));
        }
        let mut pad: String = String::new();
        let start: usize = self.raw_len();
        let mut i: usize = start;
        while i < len
            invariant
                start <= i,
                i <= len || i == start,
                start == sat_len(visible_len(self@)),
                visible_len(self@) >= 0,
                pad@ == space_seq(i - start),
            decreases len - i,
        {
            pad.append(" ");
            proof {
                reveal_strlit(" ");
                assert(" "@ =~= seq![' ']);
                assert(space_seq(i + 1 - start) =~= space_seq(i - start).push(' '));
            }
            i = i + 1;
        }
        let tail: String = chars_to_string(&self.chars);
        let r: String = pad.concat(tail.as_str());
        proof {
            assert(space_seq(i - start) =~= space_seq(pad_count(self@, len as int)));
        }
        r
    }
}

} // verus!
