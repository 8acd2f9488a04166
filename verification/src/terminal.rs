//! Terminal input decoding: key presses from raw bytes, and the terminal
//! size from the text `stty size` prints.
use vstd::prelude::*;

verus! {

/// A key press.
#[derive(Clone, Copy, Debug, PartialEq, Eq)]
pub enum Key {
    Left,
    Right,
    Char(char),
}

/// What a first byte read from the terminal means: a key, or the start of
/// an escape sequence whose next two bytes decide the key.
#[derive(Clone, Copy, Debug, PartialEq, Eq)]
pub enum KeyStart {
    Done(Key),
    Escape,
}

pub const ESCAPE: u8 = 0x1B;

/// Decodes the first byte of a key press.
pub fn key_from_byte(byte: u8) -> (r: KeyStart)
    ensures
        byte == ESCAPE ==> r == KeyStart::Escape,
        byte != ESCAPE ==> r == KeyStart::Done(Key::Char(byte as char)),
{
    if byte == ESCAPE {
        KeyStart::Escape
    } else {
        KeyStart::Done(Key::Char(byte as char))
    }
}

/// Decodes the two bytes that follow an escape byte: `[D` is the left
/// arrow, `[C` the right arrow, anything else the escape key itself.
pub fn key_from_escape(first: u8, second: u8) -> (r: Key)
    ensures
        r == if first == 0x5B && second == 0x44 {
            Key::Left
        } else if first == 0x5B && second == 0x43 {
            Key::Right
        } else {
            Key::Char('\u{1b}')
        },
{
    if first == 0x5B && second == 0x44 {
        Key::Left
    } else if first == 0x5B && second == 0x43 {
        Key::Right
    } else {
        Key::Char('\u{1b}')
    }
}

// ---------------------------------------------------------------------------
// `stty size`
// ---------------------------------------------------------------------------

/// Unicode white space, as `char::is_whitespace` classifies it.
pub open spec fn is_white(c: char) -> bool {
    let u = c as u32;
    ||| 0x09 <= u <= 0x0D
    ||| u == 0x20
    ||| u == 0x85
    ||| u == 0xA0
    ||| u == 0x1680
    ||| 0x2000 <= u <= 0x200A
    ||| u == 0x2028
    ||| u == 0x2029
    ||| u == 0x202F
    ||| u == 0x205F
    ||| u == 0x3000
}

fn white(c: char) -> (r: bool)
    ensures
        r == is_white(c),
{
    let u = c as u32;
    (0x09 <= u && u <= 0x0D) || u == 0x20 || u == 0x85 || u == 0xA0 || u == 0x1680 || (0x2000 <= u
        && u <= 0x200A) || u == 0x2028 || u == 0x2029 || u == 0x202F || u == 0x205F || u == 0x3000
}

/// The first index at or after `i` that is not white space.
pub open spec fn skip_white(s: Seq<char>, i: int) -> int
    decreases s.len() - i,
{
    if i >= s.len() || !is_white(s[i]) {
        i
    } else {
        skip_white(s, i + 1)
    }
}

/// The first index at or after `i` that is white space (or the end).
pub open spec fn word_end(s: Seq<char>, i: int) -> int
    decreases s.len() - i,
{
    if i >= s.len() || is_white(s[i]) {
        i
    } else {
        word_end(s, i + 1)
    }
}

/// The next white-space separated word at or after `i`, as its bounds.
pub open spec fn next_word(s: Seq<char>, i: int) -> Option<(int, int)> {
    let a = skip_white(s, i);
    if a >= s.len() {
        None
    } else {
        Some((a, word_end(s, a)))
    }
}

pub open spec fn is_digit(c: char) -> bool {
    '0' <= c <= '9'
}

/// The value of a string of decimal digits.
pub open spec fn digits_value(t: Seq<char>) -> nat
    decreases t.len(),
{
    if t.len() == 0 {
        0
    } else {
        digits_value(t.drop_last()) * 10 + (t.last() as u32 - 48) as nat
    }
}

/// `t` without a leading `+`.
pub open spec fn unsigned_digits(t: Seq<char>) -> Seq<char> {
    if t.len() > 0 && t[0] == '+' {
        t.skip(1)
    } else {
        t
    }
}

pub open spec fn all_digits(d: Seq<char>) -> bool {
    forall|k: int| 0 <= k < d.len() ==> is_digit(#[trigger] d[k])
}

/// How `usize::from_str` reads `t`: an optional `+` and at least one
/// decimal digit, with a value that fits in a `usize`.
pub open spec fn spec_parse_usize(t: Seq<char>) -> Option<usize> {
    let d = unsigned_digits(t);
    if d.len() == 0 || !all_digits(d) {
        None
    } else if digits_value(d) > usize::MAX {
        None
    } else {
        Some(digits_value(d) as usize)
    }
}

/// Reads `s[a..b]` as a `usize` the way `usize::from_str` does.
fn parse_usize(s: &str, a: usize, b: usize) -> (r: Option<usize>)
    requires
        a <= b <= s@.len(),
    ensures
        r == spec_parse_usize(s@.subrange(a as int, b as int)),
{
    let ghost t = s@.subrange(a as int, b as int);
    let mut i = a;
    if i < b && s.get_char(i) == '+' {
        i = i + 1;
    }
    let ghost d = s@.subrange(i as int, b as int);
    assert(d =~= unsigned_digits(t));
    if i == b {
        return None;
    }
    let start = i;
    let mut value: usize = 0;
    let mut overflow = false;
    while i < b
        invariant
            start <= i <= b,
            a <= start,
            b <= s@.len(),
            d == s@.subrange(start as int, b as int),
            t == s@.subrange(a as int, b as int),
            d == unsigned_digits(t),
            forall|k: int| start <= k < i ==> is_digit(#[trigger] s@[k]),
            !overflow ==> value as nat == digits_value(s@.subrange(start as int, i as int)),
            overflow ==> digits_value(s@.subrange(start as int, i as int)) > usize::MAX,
        decreases b - i,
    {
        let c = s.get_char(i);
        if !('0' <= c && c <= '9') {
            proof {
                let k = i - start;
                assert(d[k] == c);
                assert(!is_digit(d[k]));
                assert(!all_digits(d));
                assert(spec_parse_usize(t) is None);
            }
            return None;
        }
        let digit = (c as u32 - 48) as usize;
        let ghost prefix = s@.subrange(start as int, i + 1);
        assert(prefix.drop_last() =~= s@.subrange(start as int, i as int));
        assert(prefix.last() == c);
        if !overflow {
            match value.checked_mul(10) {
                Some(m) => match m.checked_add(digit) {
                    Some(v) => {
                        value = v;
                    },
                    None => {
                        overflow = true;
                    },
                },
                None => {
                    overflow = true;
                },
            }
        }
        i = i + 1;
    }
    assert(s@.subrange(start as int, i as int) =~= d);
    assert(all_digits(d)) by {
        assert forall|k: int| 0 <= k < d.len() implies is_digit(#[trigger] d[k]) by {
            assert(d[k] == s@[start + k]);
        }
    }
    if overflow {
        None
    } else {
        Some(value)
    }
}

/// Finds the next word at or after `i`.
fn find_word(s: &str, i: usize) -> (r: Option<(usize, usize)>)
    requires
        i <= s@.len(),
    ensures
        match r {
            Some((a, b)) => next_word(s@, i as int) == Some((a as int, b as int)),
            None => next_word(s@, i as int) is None,
        },
        r matches Some((a, b)) ==> i <= a < b <= s@.len(),
{
    let n = s.unicode_len();
    let mut a = i;
    while a < n && white(s.get_char(a))
        invariant
            i <= a <= n,
            n == s@.len(),
            skip_white(s@, i as int) == skip_white(s@, a as int),
        decreases n - a,
    {
        a = a + 1;
    }
    if a >= n {
        return None;
    }
    let mut b = a;
    while b < n && !white(s.get_char(b))
        invariant
            a <= b <= n,
            n == s@.len(),
            word_end(s@, a as int) == word_end(s@, b as int),
            a < b || (a == b && !is_white(s@[a as int])),
        decreases n - b,
    {
        b = b + 1;
    }
    Some((a, b))
}

/// The terminal size `(columns, rows)` read from `stty size` output (rows,
/// then columns), raised to at least 32 columns and 16 rows.
pub open spec fn spec_terminal_size(s: Seq<char>) -> Result<(usize, usize), Seq<char>> {
    match next_word(s, 0) {
        None => Err("terminal size did not include rows"@),
        Some((a, b)) => match spec_parse_usize(s.subrange(a, b)) {
            None => Err("invalid terminal row count"@),
            Some(rows) => match next_word(s, b) {
                None => Err("terminal size did not include columns"@),
                Some((c, d)) => match spec_parse_usize(s.subrange(c, d)) {
                    None => Err("invalid terminal column count"@),
                    Some(cols) => Ok(
                        (
                            if cols > 32 {
                                cols
                            } else {
                                32
                            },
                            if rows > 16 {
                                rows
                            } else {
                                16
                            },
                        ),
                    ),
                },
            },
        },
    }
}

pub open spec fn size_result_view(r: Result<(usize, usize), String>) -> Result<(usize, usize), Seq<char>> {
    match r {
        Ok(v) => Ok(v),
        Err(e) => Err(e@),
    }
}

/// Reads the terminal size from the text printed by `stty size`.
pub fn parse_terminal_size(text: &str) -> (r: Result<(usize, usize), String>)
    ensures
        size_result_view(r) == spec_terminal_size(text@),
{
    let (a, b) = match find_word(text, 0) {
        Some(w) => w,
        None => return Err(String::from_str("terminal size did not include rows")),
    };
    let rows = match parse_usize(text, a, b) {
        Some(v) => v,
        None => return Err(String::from_str("invalid terminal row count")),
    };
    let (c, d) = match find_word(text, b) {
        Some(w) => w,
        None => return Err(String::from_str("terminal size did not include columns")),
    };
    let cols = match parse_usize(text, c, d) {
        Some(v) => v,
        None => return Err(String::from_str("invalid terminal column count")),
    };
    Ok(
        (
            if cols > 32 {
                cols
            } else {
                32
            },
            if rows > 16 {
                rows
            } else {
                16
            },
        ),
    )
}

/// The first index from which `s` holds only white space.
pub open spec fn trailing_white_start(s: Seq<char>, end: int) -> int
    decreases end,
{
    if end <= 0 || !is_white(s[end - 1]) {
        end
    } else {
        trailing_white_start(s, end - 1)
    }
}

/// `s` without leading and trailing white space.
pub open spec fn trimmed(s: Seq<char>) -> Seq<char> {
    let a = skip_white(s, 0);
    if a >= s.len() {
        Seq::empty()
    } else {
        s.subrange(a, trailing_white_start(s, s.len() as int))
    }
}

proof fn lemma_trailing_white_start(s: Seq<char>, end: int, a: int)
    requires
        0 <= a < end <= s.len(),
        !is_white(s[a]),
    ensures
        a < trailing_white_start(s, end) <= end,
    decreases end,
{
    if end > 0 && is_white(s[end - 1]) {
        lemma_trailing_white_start(s, end - 1, a);
    }
}

/// A copy of `text` without leading and trailing white space (as
/// `str::trim` removes it).
pub fn trim_white(text: &str) -> (r: String)
    ensures
        r@ == trimmed(text@),
{
    let n = text.unicode_len();
    let mut a: usize = 0;
    while a < n && white(text.get_char(a))
        invariant
            a <= n,
            n == text@.len(),
            skip_white(text@, 0) == skip_white(text@, a as int),
        decreases n - a,
    {
        a = a + 1;
    }
    if a >= n {
        return String::new();
    }
    let mut e = n;
    while e > 0 && white(text.get_char(e - 1))
        invariant
            e <= n,
            n == text@.len(),
            trailing_white_start(text@, n as int) == trailing_white_start(text@, e as int),
        decreases e,
    {
        e = e - 1;
    }
    proof {
        lemma_trailing_white_start(text@, n as int, a as int);
    }
    text.substring_char(a, e).to_owned()
}

} // verus!
