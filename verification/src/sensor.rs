//! The temperature sensor: which device to read, and what its text says.
use vstd::prelude::*;

#[allow(unused_imports)]
use crate::text::decimal;

verus! {

/// Unicode white space.
pub open spec fn is_white(c: char) -> bool {
    let n = c as int;
    ||| 0x09 <= n <= 0x0d
    ||| n == 0x20
    ||| n == 0x85
    ||| n == 0xa0
    ||| n == 0x1680
    ||| 0x2000 <= n <= 0x200a
    ||| n == 0x2028
    ||| n == 0x2029
    ||| n == 0x202f
    ||| n == 0x205f
    ||| n == 0x3000
}

/// The text without white space in front.
pub open spec fn without_leading(s: Seq<char>) -> Seq<char>
    decreases s.len(),
{
    if s.len() > 0 && is_white(s[0]) {
        without_leading(s.drop_first())
    } else {
        s
    }
}

/// The text without white space behind.
pub open spec fn without_trailing(s: Seq<char>) -> Seq<char>
    decreases s.len(),
{
    if s.len() > 0 && is_white(s.last()) {
        without_trailing(s.drop_last())
    } else {
        s
    }
}

/// The text without white space at either end.
pub open spec fn trimmed(s: Seq<char>) -> Seq<char> {
    without_trailing(without_leading(s))
}

/// The number that a sequence of decimal digits writes; `None` if it holds anything
/// else.
pub open spec fn digits_value(s: Seq<char>) -> Option<int>
    decreases s.len(),
{
    if s.len() == 0 {
        Some(0)
    } else {
        let d = s.last() as int - '0' as int;
        match digits_value(s.drop_last()) {
            Some(v) => if 0 <= d < 10 {
                Some(v * 10 + d)
            } else {
                None
            },
            None => None,
        }
    }
}

/// The number that a text writes: decimal digits, at least one, with an optional
/// sign in front.
pub open spec fn integer_value(s: Seq<char>) -> Option<int> {
    if s.len() > 1 && (s[0] == '-' || s[0] == '+') {
        match digits_value(s.drop_first()) {
            Some(v) => Some(
                if s[0] == '-' {
                    -v
                } else {
                    v
                },
            ),
            None => None,
        }
    } else if s.len() > 0 {
        digits_value(s)
    } else {
        None
    }
}

/// The reading in a sensor's text: an integer that fits, with white space around it.
pub open spec fn reading(s: Seq<char>) -> Option<i32> {
    match integer_value(trimmed(s)) {
        Some(v) => if i32::MIN <= v <= i32::MAX {
            Some(v as i32)
        } else {
            None
        },
        None => None,
    }
}

fn is_white_space(c: char) -> (r: bool)
    ensures
        r == is_white(c),
{
    let n: u32 = c as u32;
    (0x09 <= n && n <= 0x0d) || n == 0x20 || n == 0x85 || n == 0xa0 || n == 0x1680 || (0x2000 <= n
        && n <= 0x200a) || n == 0x2028 || n == 0x2029 || n == 0x202f || n == 0x205f || n == 0x3000
}

proof fn lemma_digits_bad_prefix(s: Seq<char>, n: int)
    requires
        0 <= n <= s.len(),
        digits_value(s.take(n)) is None,
    ensures
        digits_value(s) is None,
    decreases s.len() - n,
{
    if n < s.len() {
        assert(s.take(n + 1).drop_last() =~= s.take(n));
        lemma_digits_bad_prefix(s, n + 1);
    } else {
        assert(s.take(n) =~= s);
    }
}

proof fn lemma_digits_grow(s: Seq<char>, n: int)
    requires
        0 <= n <= s.len(),
        digits_value(s) is Some,
    ensures
        digits_value(s.take(n)) is Some,
        0 <= digits_value(s.take(n))->Some_0 <= digits_value(s)->Some_0,
    decreases s.len(),
{
    if n < s.len() {
        lemma_digits_grow(s.drop_last(), n);
        assert(s.drop_last().take(n) =~= s.take(n));
        lemma_digits_grow(s.drop_last(), s.len() - 1);
        assert(s.drop_last().take(s.len() - 1) =~= s.drop_last());
    } else {
        assert(s.take(n) =~= s);
        if s.len() > 0 {
            lemma_digits_grow(s.drop_last(), s.len() - 1);
            assert(s.drop_last().take(s.len() - 1) =~= s.drop_last());
        }
    }
}

/// The characters of a text without white space at either end.
fn trim(text: &str) -> (r: Vec<char>)
    ensures
        r@ == trimmed(text@),
{
    let len: usize = text.unicode_len();
    let mut start: usize = 0;
    assert(text@.skip(0) =~= text@);
    while start < len && is_white_space(text.get_char(start))
        invariant
            start <= len == text@.len(),
            without_leading(text@) == without_leading(text@.skip(start as int)),
        decreases len - start,
    {
        assert(text@.skip(start as int).drop_first() =~= text@.skip(start + 1));
        start += 1;
    }
    let ghost rest = text@.skip(start as int);
    assert(without_leading(text@) == rest);
    let mut end: usize = len;
    assert(rest =~= text@.subrange(start as int, end as int));
    while end > start && is_white_space(text.get_char(end - 1))
        invariant
            start <= end <= len == text@.len(),
            trimmed(text@) == without_trailing(text@.subrange(start as int, end as int)),
        decreases end,
    {
        assert(text@.subrange(start as int, end as int).drop_last() =~= text@.subrange(
            start as int,
            end - 1,
        ));
        end -= 1;
    }
    let mut r: Vec<char> = Vec::new();
    let mut i: usize = start;
    while i < end
        invariant
            start <= i <= end <= text@.len(),
            r@ == text@.subrange(start as int, i as int),
        decreases end - i,
    {
        r.push(text.get_char(i));
        assert(r@ =~= text@.subrange(start as int, i + 1));
        i += 1;
    }
    r
}

fn digit_of(c: char) -> (r: Option<i64>)
    ensures
        match r {
            Some(d) => d == c as int - '0' as int && 0 <= d < 10,
            None => (c as int) < '0' as int || c as int >= '0' as int + 10,
        },
{
    let n: u32 = c as u32;
    if n < '0' as u32 || n > '9' as u32 {
        None
    } else {
        Some((n - '0' as u32) as i64)
    }
}

/// The value of the digits from `start` on, as long as it stays below 2^40.
fn parse_digits(chars: &Vec<char>, start: usize) -> (r: Option<i64>)
    requires
        start <= chars@.len(),
    ensures
        match r {
            Some(v) => digits_value(chars@.skip(start as int)) == Some(v as int) && 0 <= v
                < 0x100_0000_0000,
            None => match digits_value(chars@.skip(start as int)) {
                Some(v) => v >= 0x100_0000_0000,
                None => true,
            },
        },
{
    let ghost s = chars@.skip(start as int);
    let mut v: i64 = 0;
    let mut i: usize = start;
    assert(s.take(0) =~= Seq::empty());
    while i < chars.len()
        invariant
            start <= i <= chars@.len(),
            s == chars@.skip(start as int),
            0 <= v < 0x100_0000_0000,
            digits_value(s.take(i - start)) == Some(v as int),
        decreases chars@.len() - i,
    {
        let digit: Option<i64> = digit_of(chars[i]);
        let ghost n = i - start;
        assert(s.take(n + 1).drop_last() =~= s.take(n));
        assert(s.take(n + 1).last() == chars@[i as int]);
        match digit {
            Some(d) => {
                v = v * 10 + d;
            },
            None => {
                proof {
                    lemma_digits_bad_prefix(s, n + 1);
                }
                return None;
            },
        }
        if v >= 0x100_0000_0000 {
            proof {
                if digits_value(s) is Some {
                    lemma_digits_grow(s, n + 1);
                }
            }
            return None;
        }
        i += 1;
    }
    assert(s.take(s.len() as int) =~= s);
    Some(v)
}

/// Reads a sensor's text.
pub fn parse_temperature(text: &str) -> (r: Option<i32>)
    ensures
        r == reading(text@),
{
    let chars: Vec<char> = trim(text);
    assert(chars.len() == chars@.len());
    if chars.len() == 0 {
        return None;
    }
    let signed: bool = chars.len() > 1 && (chars[0] == '-' || chars[0] == '+');
    let start: usize = if signed {
        1
    } else {
        0
    };
    assert(chars@.skip(0) =~= chars@);
    assert(chars@.skip(1) =~= chars@.drop_first());
    let magnitude: i64 = match parse_digits(&chars, start) {
        Some(v) => v,
        None => return None,
    };
    let value: i64 = if signed && chars[0] == '-' {
        -magnitude
    } else {
        magnitude
    };
    if value < i32::MIN as i64 || value > i32::MAX as i64 {
        return None;
    }
    Some(value as i32)
}

/// What to do with a device of the sensor class.
#[derive(Debug, Clone, Copy, PartialEq, Eq, Structural)]
pub enum Probe {
    /// It is the panel's sensor: read its temperature.
    Read,
    /// It is another device: look at the next one.
    Skip,
    /// Its name cannot be read: there is no reading.
    GiveUp,
}

/// The name of the panel's sensor.
pub open spec fn sensor_name() -> Seq<char> {
    "sy7636a_temperature"@
}

/// Decides on a device by its name, where that can be read.
pub fn probe(name: Option<&str>) -> (r: Probe)
    ensures
        r == match name {
            None => Probe::GiveUp,
            Some(text) => if trimmed(text@) == sensor_name() {
                Probe::Read
            } else {
                Probe::Skip
            },
        },
{
    match name {
        None => Probe::GiveUp,
        Some(text) => {
            if chars_equal(&trim(text), "sy7636a_temperature") {
                Probe::Read
            } else {
                Probe::Skip
            }
        },
    }
}

fn chars_equal(chars: &Vec<char>, text: &str) -> (r: bool)
    ensures
        r == (chars@ == text@),
{
    if chars.len() != text.unicode_len() {
        return false;
    }
    let mut i: usize = 0;
    while i < chars.len()
        invariant
            i <= chars@.len() == text@.len(),
            forall|k: int| 0 <= k < i ==> chars@[k] == text@[k],
        decreases chars@.len() - i,
    {
        if chars[i] != text.get_char(i) {
            return false;
        }
        i += 1;
    }
    assert(chars@ =~= text@);
    true
}

// ---------------------------------------------------------------------------
// Laws
// ---------------------------------------------------------------------------

/// White space is exactly what Unicode counts as such.
pub proof fn law_white_space(c: char)
    ensures
        is_white(c) <==> {
            let n = c as int;
            ||| n == 9 || n == 10 || n == 11 || n == 12 || n == 13
            ||| n == 32 || n == 133 || n == 160
            ||| n == 5760
            ||| 8192 <= n <= 8202
            ||| n == 8232 || n == 8233 || n == 8239 || n == 8287 || n == 12288
        },
{
}

proof fn lemma_leading(s: Seq<char>) -> (a: int)
    ensures
        0 <= a <= s.len(),
        without_leading(s) == s.skip(a),
        forall|i: int| 0 <= i < a ==> is_white(#[trigger] s[i]),
        a < s.len() ==> !is_white(s[a]),
    decreases s.len(),
{
    if s.len() > 0 && is_white(s[0]) {
        let rest = s.drop_first();
        let a = lemma_leading(rest);
        assert(rest.skip(a) =~= s.skip(a + 1));
        assert forall|i: int| 0 <= i < a + 1 implies is_white(#[trigger] s[i]) by {
            if i > 0 {
                assert(s[i] == rest[i - 1]);
            }
        }
        a + 1
    } else {
        assert(s.skip(0) =~= s);
        0
    }
}

proof fn lemma_trailing(s: Seq<char>) -> (b: int)
    ensures
        0 <= b <= s.len(),
        without_trailing(s) == s.take(b),
        forall|i: int| b <= i < s.len() ==> is_white(#[trigger] s[i]),
        b > 0 ==> !is_white(s[b - 1]),
    decreases s.len(),
{
    if s.len() > 0 && is_white(s.last()) {
        let rest = s.drop_last();
        let b = lemma_trailing(rest);
        assert(rest.take(b) =~= s.take(b));
        assert forall|i: int| b <= i < s.len() implies is_white(#[trigger] s[i]) by {
            if i < s.len() - 1 {
                assert(s[i] == rest[i]);
            }
        }
        b
    } else {
        assert(s.take(s.len() as int) =~= s);
        s.len() as int
    }
}

/// Trimming takes away white space at the ends, all of it and nothing else: what is left
/// of a text with white space around its core is the core, if that has no white space at
/// its own ends.
pub proof fn law_trimming_leaves_the_core(front: Seq<char>, core: Seq<char>, back: Seq<char>)
    requires
        forall|i: int| 0 <= i < front.len() ==> is_white(#[trigger] front[i]),
        forall|i: int| 0 <= i < back.len() ==> is_white(#[trigger] back[i]),
        core.len() > 0 ==> !is_white(core[0]) && !is_white(core.last()),
    ensures
        trimmed(front + core + back) == core,
{
    let s = front + core + back;
    let a = lemma_leading(s);
    let rest = s.skip(a);
    let b = lemma_trailing(rest);
    let n = core.len() as int;
    let f = front.len() as int;
    if n > 0 {
        assert(s[f] == core[0]);
        assert(s[f + n - 1] == core.last());
        assert(a == f) by {
            if a > f {
                assert(is_white(s[f]));
            }
            if a < f {
                assert(s[a] == front[a]);
            }
        }
        assert(b == n) by {
            if b > n {
                assert(rest[b - 1] == back[b - 1 - n]);
            }
            if b < n {
                assert(rest[n - 1] == core.last());
            }
        }
        assert(rest.take(b) =~= core);
    } else {
        assert(a == s.len()) by {
            if a < s.len() {
                if a < f {
                    assert(s[a] == front[a]);
                } else {
                    assert(s[a] == back[a - f]);
                }
            }
        }
        assert(rest.take(b) =~= core);
    }
}

proof fn lemma_digits_of_written(n: nat)
    ensures
        digits_value(decimal(n)) == Some(n as int),
        decimal(n).len() > 0,
        forall|i: int|
            0 <= i < decimal(n).len() ==> '0' <= (#[trigger] decimal(n)[i]) && decimal(n)[i] <= '9',
    decreases n,
{
    let s = decimal(n);
    if n < 10 {
        assert(s.drop_last() =~= Seq::empty());
        assert(digits_value(s.drop_last()) == Some(0int));
    } else {
        lemma_digits_of_written(n / 10);
        assert(s.drop_last() =~= decimal(n / 10));
    }
}

/// A number that is written in decimal, with or without a sign and with white space
/// around it, is read as that number if it fits, and as nothing if it does not.
pub proof fn law_written_temperatures_read_back(front: Seq<char>, n: nat, back: Seq<char>)
    requires
        forall|i: int| 0 <= i < front.len() ==> is_white(#[trigger] front[i]),
        forall|i: int| 0 <= i < back.len() ==> is_white(#[trigger] back[i]),
    ensures
        reading(front + decimal(n) + back) == if n < 0x8000_0000 {
            Some(n as i32)
        } else {
            None
        },
        reading(front + (seq!['+'] + decimal(n)) + back) == if n < 0x8000_0000 {
            Some(n as i32)
        } else {
            None
        },
        reading(front + (seq!['-'] + decimal(n)) + back) == if n <= 0x8000_0000 {
            Some((0 - n) as i32)
        } else {
            None
        },
{
    let core = decimal(n);
    lemma_digits_of_written(n);
    assert('0' <= core[0] && core[0] <= '9');
    assert('0' <= core.last() && core.last() <= '9');
    law_trimming_leaves_the_core(front, core, back);
    let plus = seq!['+'] + core;
    assert(plus.drop_first() =~= core);
    assert(plus.last() == core.last());
    law_trimming_leaves_the_core(front, plus, back);
    let minus = seq!['-'] + core;
    assert(minus.drop_first() =~= core);
    assert(minus.last() == core.last());
    law_trimming_leaves_the_core(front, minus, back);
}

/// Each further digit shifts a number by one decimal place; anything else makes it no
/// number.
pub proof fn law_digits_accumulate(s: Seq<char>, c: char)
    ensures
        digits_value(Seq::empty()) == Some(0int),
        digits_value(s.push(c)) == if digits_value(s) is Some && '0' <= c && c <= '9' {
            Some(10 * digits_value(s)->Some_0 + (c as int - 48))
        } else {
            None
        },
{
    assert(s.push(c).drop_last() =~= s);
}

/// Digits, with or without a sign and with white space around them, are read as their
/// number if it fits in 32 bits, and as nothing if it does not. Leading zeros do not
/// matter.
pub proof fn law_digits_are_read(front: Seq<char>, core: Seq<char>, back: Seq<char>)
    requires
        forall|i: int| 0 <= i < front.len() ==> is_white(#[trigger] front[i]),
        forall|i: int| 0 <= i < back.len() ==> is_white(#[trigger] back[i]),
        core.len() > 0,
        digits_value(core) is Some,
    ensures
        ({
            let v = digits_value(core)->Some_0;
            &&& v >= 0
            &&& reading(front + core + back) == if v <= 0x7fff_ffff {
                Some(v as i32)
            } else {
                None
            }
            &&& reading(front + (seq!['+'] + core) + back) == if v <= 0x7fff_ffff {
                Some(v as i32)
            } else {
                None
            }
            &&& reading(front + (seq!['-'] + core) + back) == if v <= 0x8000_0000 {
                Some((0 - v) as i32)
            } else {
                None
            }
        }),
{
    lemma_only_digits(core);
    lemma_digits_grow(core, 0);
    assert('0' <= core[0] && core[0] <= '9');
    assert('0' <= core.last() && core.last() <= '9');
    law_trimming_leaves_the_core(front, core, back);
    let plus = seq!['+'] + core;
    assert(plus.drop_first() =~= core);
    assert(plus.last() == core.last());
    law_trimming_leaves_the_core(front, plus, back);
    let minus = seq!['-'] + core;
    assert(minus.drop_first() =~= core);
    assert(minus.last() == core.last());
    law_trimming_leaves_the_core(front, minus, back);
}

proof fn lemma_only_digits(s: Seq<char>)
    requires
        digits_value(s) is Some,
    ensures
        forall|i: int| 0 <= i < s.len() ==> '0' <= (#[trigger] s[i]) && s[i] <= '9',
    decreases s.len(),
{
    if s.len() > 0 {
        lemma_only_digits(s.drop_last());
        assert forall|i: int| 0 <= i < s.len() implies '0' <= (#[trigger] s[i]) && s[i] <= '9' by {
            if i < s.len() - 1 {
                assert(s[i] == s.drop_last()[i]);
            }
        }
    }
}

/// Nothing else is read: what has a reading is, without the white space at its ends, at
/// least one decimal digit, with at most a sign in front.
pub proof fn law_readings_are_digits(s: Seq<char>)
    requires
        reading(s) is Some,
    ensures
        ({
            let core = trimmed(s);
            let first: int = if core[0] == '+' || core[0] == '-' {
                1
            } else {
                0
            };
            &&& core.len() > first
            &&& forall|i: int| first <= i < core.len() ==> '0' <= (#[trigger] core[i]) && core[i]
                <= '9'
        }),
{
    let core = trimmed(s);
    if core.len() > 1 && (core[0] == '-' || core[0] == '+') {
        lemma_only_digits(core.drop_first());
        assert forall|i: int| 1 <= i < core.len() implies '0' <= (#[trigger] core[i]) && core[i]
            <= '9' by {
            assert(core[i] == core.drop_first()[i - 1]);
        }
    } else {
        lemma_only_digits(core);
        assert('0' <= core[0] && core[0] <= '9');
    }
}

} // verus!
