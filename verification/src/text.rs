//! Character-level text primitives: lines, Unicode whitespace trimming,
//! ASCII case folding, and decimal integer parsing.
use vstd::prelude::*;
use vstd::std_specs::iter::IteratorSpec;

verus! {

/// The characters of `text`.
pub fn chars_of(text: &str) -> (r: Vec<char>)
    ensures
        r@ == text@,
{
    let mut out: Vec<char> = Vec::new();
    let mut it = text.chars();
    proof {
        broadcast use vstd::string::axiom_spec_iter;
    }
    loop
        invariant
            out@ + it.remaining() == text@,
            it.obeys_prophetic_iter_laws(),
        ensures
            out@ == text@,
        decreases text@.len() - out@.len(),
    {
        match it.next() {
            Some(c) => {
                proof {
                    broadcast use vstd::string::next_postcondition;
                }
                out.push(c);
                assert(out@ + it.remaining() =~= text@);
            },
            None => {
                proof {
                    broadcast use vstd::string::next_postcondition;
                }
                assert(out@ =~= text@);
                break ;
            },
        }
    }
    out
}

/// The characters of a string literal or other short string.
pub fn literal(s: &str) -> (r: Vec<char>)
    ensures
        r@ == s@,
{
    chars_of(s)
}

/// Unicode `White_Space`, the set `char::is_whitespace` tests.
pub open spec fn is_ws(c: char) -> bool {
    ||| c == '\t' || c == '\n' || c == '\u{0B}' || c == '\u{0C}' || c == '\r' || c == ' '
    ||| c == '\u{85}' || c == '\u{A0}' || c == '\u{1680}'
    ||| ('\u{2000}' <= c && c <= '\u{200A}')
    ||| c == '\u{2028}' || c == '\u{2029}' || c == '\u{202F}' || c == '\u{205F}' || c == '\u{3000}'
}

pub fn is_whitespace(c: char) -> (r: bool)
    ensures
        r == is_ws(c),
{
    c == '\t' || c == '\n' || c == '\u{0B}' || c == '\u{0C}' || c == '\r' || c == ' ' || c
        == '\u{85}' || c == '\u{A0}' || c == '\u{1680}' || ('\u{2000}' <= c && c <= '\u{200A}')
        || c == '\u{2028}' || c == '\u{2029}' || c == '\u{202F}' || c == '\u{205F}' || c
        == '\u{3000}'
}

/// `s` without leading whitespace.
pub open spec fn trim_start(s: Seq<char>) -> Seq<char>
    decreases s.len(),
{
    if s.len() > 0 && is_ws(s[0]) {
        trim_start(s.drop_first())
    } else {
        s
    }
}

/// `s` without trailing whitespace.
pub open spec fn trim_end(s: Seq<char>) -> Seq<char>
    decreases s.len(),
{
    if s.len() > 0 && is_ws(s.last()) {
        trim_end(s.drop_last())
    } else {
        s
    }
}

/// `s` without leading and trailing whitespace.
pub open spec fn trimmed(s: Seq<char>) -> Seq<char> {
    trim_end(trim_start(s))
}

proof fn lemma_trim_start_suffix(s: Seq<char>, i: int)
    requires
        0 <= i <= s.len(),
        forall|k: int| 0 <= k < i ==> is_ws(#[trigger] s[k]),
        i == s.len() || !is_ws(s[i]),
    ensures
        trim_start(s) == s.subrange(i, s.len() as int),
    decreases i,
{
    if i == 0 {
        assert(s.subrange(0, s.len() as int) =~= s);
    } else {
        assert(is_ws(s[0]));
        let t = s.drop_first();
        assert forall|k: int| 0 <= k < i - 1 implies is_ws(#[trigger] t[k]) by {
            assert(t[k] == s[k + 1]);
        }
        if i < s.len() {
            assert(t[i - 1] == s[i]);
        }
        lemma_trim_start_suffix(t, i - 1);
        assert(t.subrange(i - 1, t.len() as int) =~= s.subrange(i, s.len() as int));
    }
}

proof fn lemma_trim_end_prefix(s: Seq<char>, j: int)
    requires
        0 <= j <= s.len(),
        forall|k: int| j <= k < s.len() ==> is_ws(#[trigger] s[k]),
        j == 0 || !is_ws(s[j - 1]),
    ensures
        trim_end(s) == s.subrange(0, j),
    decreases s.len() - j,
{
    if j == s.len() {
        assert(s.subrange(0, j) =~= s);
    } else {
        assert(is_ws(s.last()));
        let t = s.drop_last();
        assert forall|k: int| j <= k < t.len() implies is_ws(#[trigger] t[k]) by {
            assert(t[k] == s[k]);
        }
        if j > 0 {
            assert(t[j - 1] == s[j - 1]);
        }
        lemma_trim_end_prefix(t, j);
        assert(t.subrange(0, j) =~= s.subrange(0, j));
    }
}

/// `s` without leading and trailing whitespace.
pub fn trim(s: &Vec<char>) -> (r: Vec<char>)
    ensures
        r@ == trimmed(s@),
{
    let n = s.len();
    let mut i: usize = 0;
    while i < n && is_whitespace(s[i])
        invariant
            n == s@.len(),
            i <= n,
            forall|k: int| 0 <= k < i ==> is_ws(#[trigger] s@[k]),
        decreases n - i,
    {
        i = i + 1;
    }
    proof {
        lemma_trim_start_suffix(s@, i as int);
    }
    let ghost rest = s@.subrange(i as int, n as int);
    let mut j: usize = n;
    while j > i && is_whitespace(s[j - 1])
        invariant
            n == s@.len(),
            i <= j <= n,
            forall|k: int| j <= k < n ==> is_ws(#[trigger] s@[k]),
        decreases j,
    {
        j = j - 1;
    }
    proof {
        assert forall|k: int| j - i <= k < rest.len() implies is_ws(#[trigger] rest[k]) by {
            assert(rest[k] == s@[k + i]);
        }
        if j > i {
            assert(rest[j - i - 1] == s@[j - 1]);
        }
        lemma_trim_end_prefix(rest, (j - i) as int);
        assert(rest.subrange(0, (j - i) as int) =~= s@.subrange(i as int, j as int));
    }
    let mut out: Vec<char> = Vec::new();
    let mut k: usize = i;
    while k < j
        invariant
            n == s@.len(),
            i <= k <= j <= n,
            out@ == s@.subrange(i as int, k as int),
        decreases j - k,
    {
        out.push(s[k]);
        assert(out@ =~= s@.subrange(i as int, k as int + 1));
        k = k + 1;
    }
    out
}

/// Equality with a literal or other string.
pub fn eq_str(a: &Vec<char>, b: &str) -> (r: bool)
    ensures
        r == (a@ == b@),
{
    let bc = literal(b);
    eq_chars(a, &bc)
}

/// Equality of two character sequences.
pub fn eq_chars(a: &Vec<char>, b: &Vec<char>) -> (r: bool)
    ensures
        r == (a@ == b@),
{
    if a.len() != b.len() {
        return false;
    }
    let mut i: usize = 0;
    while i < a.len()
        invariant
            a@.len() == b@.len(),
            i <= a@.len(),
            forall|k: int| 0 <= k < i ==> a@[k] == b@[k],
        decreases a.len() - i,
    {
        if a[i] != b[i] {
            return false;
        }
        i = i + 1;
    }
    assert(a@ =~= b@);
    true
}

/// `s` begins with `prefix`.
pub open spec fn starts_with(s: Seq<char>, prefix: Seq<char>) -> bool {
    prefix.len() <= s.len() && s.subrange(0, prefix.len() as int) == prefix
}

pub fn has_prefix(s: &Vec<char>, prefix: &Vec<char>) -> (r: bool)
    ensures
        r == starts_with(s@, prefix@),
{
    if prefix.len() > s.len() {
        return false;
    }
    let mut i: usize = 0;
    while i < prefix.len()
        invariant
            prefix@.len() <= s@.len(),
            i <= prefix@.len(),
            forall|k: int| 0 <= k < i ==> s@[k] == prefix@[k],
        decreases prefix.len() - i,
    {
        if s[i] != prefix[i] {
            assert(s@.subrange(0, prefix@.len() as int)[i as int] == s@[i as int]);
            return false;
        }
        i = i + 1;
    }
    assert(s@.subrange(0, prefix@.len() as int) =~= prefix@);
    true
}

/// `s` contains `needle` as a contiguous part.
pub open spec fn contains_seq(s: Seq<char>, needle: Seq<char>) -> bool {
    exists|i: int|
        0 <= i && i + needle.len() <= s.len() && #[trigger] s.subrange(i, i + needle.len())
            == needle
}

pub fn contains_chars(s: &Vec<char>, needle: &Vec<char>) -> (r: bool)
    ensures
        r == contains_seq(s@, needle@),
{
    if needle.len() > s.len() {
        proof {
            if contains_seq(s@, needle@) {
                let i = choose|i: int|
                    0 <= i && i + needle@.len() <= s@.len() && #[trigger] s@.subrange(
                        i,
                        i + needle@.len(),
                    ) == needle@;
            }
        }
        return false;
    }
    let last = s.len() - needle.len();
    let mut i: usize = 0;
    while i <= last
        invariant
            last + needle@.len() == s@.len(),
            i <= last + 1,
            forall|k: int|
                0 <= k < i ==> #[trigger] s@.subrange(k, k + needle@.len()) != needle@,
        decreases last + 1 - i,
    {
        let mut j: usize = 0;
        let mut same = true;
        while j < needle.len()
            invariant
                last + needle@.len() == s@.len(),
                i <= last,
                i + needle@.len() <= s@.len(),
                j <= needle@.len(),
                same == forall|k: int| 0 <= k < j ==> s@[i + k] == needle@[k],
            decreases needle.len() - j,
        {
            assert(i + j < s.len());
            if s[i + j] != needle[j] {
                same = false;
            }
            j = j + 1;
        }
        if same {
            assert(s@.subrange(i as int, i + needle@.len()) =~= needle@);
            return true;
        }
        proof {
            let sub = s@.subrange(i as int, i + needle@.len());
            if sub == needle@ {
                assert forall|k: int| 0 <= k < needle@.len() implies s@[i + k] == needle@[k] by {
                    assert(sub[k] == s@[i + k]);
                }
            }
        }
        if i == last {
            return false;
        }
        i = i + 1;
    }
    false
}

/// ASCII lower-case of one character.
pub open spec fn lower(c: char) -> char {
    if 'A' <= c && c <= 'Z' {
        ((c as u32) + 32) as char
    } else {
        c
    }
}

pub open spec fn lowercase(s: Seq<char>) -> Seq<char> {
    s.map_values(|c: char| lower(c))
}

pub fn to_lower(c: char) -> (r: char)
    ensures
        r == lower(c),
{
    if 'A' <= c && c <= 'Z' {
        ((c as u8) + 32) as char
    } else {
        c
    }
}

/// ASCII lower-case of a sequence.
pub fn to_ascii_lowercase(s: &Vec<char>) -> (r: Vec<char>)
    ensures
        r@ == lowercase(s@),
{
    let mut out: Vec<char> = Vec::new();
    let mut i: usize = 0;
    while i < s.len()
        invariant
            i <= s@.len(),
            out@ == lowercase(s@.subrange(0, i as int)),
        decreases s.len() - i,
    {
        out.push(to_lower(s[i]));
        assert(out@ =~= lowercase(s@.subrange(0, i as int + 1)));
        i = i + 1;
    }
    assert(s@.subrange(0, s@.len() as int) =~= s@);
    out
}

/// Equality ignoring ASCII case.
pub fn eq_ignore_ascii_case(a: &Vec<char>, b: &str) -> (r: bool)
    ensures
        r == (lowercase(a@) == lowercase(b@)),
{
    let la = to_ascii_lowercase(a);
    let bc = literal(b);
    let lb = to_ascii_lowercase(&bc);
    eq_chars(&la, &lb)
}

pub open spec fn digit(c: char) -> bool {
    '0' <= c && c <= '9'
}

pub open spec fn all_digits(d: Seq<char>) -> bool {
    forall|i: int| 0 <= i < d.len() ==> #[trigger] digit(d[i])
}

/// The number written by the decimal digits `d`.
pub open spec fn decimal_value(d: Seq<char>) -> int
    decreases d.len(),
{
    if d.len() == 0 {
        0
    } else {
        decimal_value(d.drop_last()) * 10 + (d.last() as int - '0' as int)
    }
}

/// Decimal parsing of an unsigned integer no larger than `max`: an optional
/// `+`, then at least one ASCII digit.
pub open spec fn parse_unsigned(s: Seq<char>, max: int) -> Option<int> {
    let d = if s.len() > 0 && s[0] == '+' {
        s.drop_first()
    } else {
        s
    };
    if d.len() == 0 || !all_digits(d) || decimal_value(d) > max {
        None
    } else {
        Some(decimal_value(d))
    }
}

proof fn lemma_decimal_nonneg(d: Seq<char>)
    requires
        all_digits(d),
    ensures
        decimal_value(d) >= 0,
    decreases d.len(),
{
    if d.len() > 0 {
        let rest = d.drop_last();
        assert forall|i: int| 0 <= i < rest.len() implies #[trigger] digit(rest[i]) by {
            assert(rest[i] == d[i]);
        }
        assert(digit(d[d.len() - 1]));
        lemma_decimal_nonneg(rest);
    }
}

proof fn lemma_decimal_prefix_bound(d: Seq<char>, k: int, max: int)
    requires
        0 < k <= d.len(),
        max >= 0,
        all_digits(d.subrange(0, k)),
        decimal_value(d.subrange(0, k)) > max,
    ensures
        !all_digits(d) || decimal_value(d) > max,
    decreases d.len() - k,
{
    if k < d.len() && all_digits(d) {
        let next = d.subrange(0, k + 1);
        assert(next.drop_last() =~= d.subrange(0, k));
        assert forall|i: int| 0 <= i < next.len() implies #[trigger] digit(next[i]) by {
            assert(next[i] == d[i]);
        }
        assert(digit(d[k]));
        assert(next.last() == d[k]);
        lemma_decimal_nonneg(next.drop_last());
        assert(decimal_value(next) > max);
        lemma_decimal_prefix_bound(d, k + 1, max);
    } else if k == d.len() {
        assert(d.subrange(0, k) =~= d);
    }
}

/// Parse an unsigned decimal integer no larger than `max`.
pub fn parse_unsigned_exec(s: &Vec<char>, max: u64) -> (r: Option<u64>)
    ensures
        match parse_unsigned(s@, max as int) {
            Some(v) => 0 <= v <= max && r == Some(v as u64),
            None => r is None,
        },
{
    let start: usize = if s.len() > 0 && s[0] == '+' {
        1
    } else {
        0
    };
    let ghost d = if s@.len() > 0 && s@[0] == '+' {
        s@.drop_first()
    } else {
        s@
    };
    assert(d =~= s@.subrange(start as int, s@.len() as int));
    if start == s.len() {
        return None;
    }
    let mut value: u64 = 0;
    let mut i: usize = start;
    while i < s.len()
        invariant
            start <= i <= s@.len(),
            d == s@.subrange(start as int, s@.len() as int),
            d == (if s@.len() > 0 && s@[0] == '+' {
                s@.drop_first()
            } else {
                s@
            }),
            all_digits(s@.subrange(start as int, i as int)),
            value as int == decimal_value(s@.subrange(start as int, i as int)),
            value <= max,
        decreases s.len() - i,
    {
        let c = s[i];
        if !('0' <= c && c <= '9') {
            proof {
                assert(d[i - start] == c);
                assert(!digit(d[i - start]));
                assert(!all_digits(d));
            }
            return None;
        }
        let dv: u64 = ((c as u32) - ('0' as u32)) as u64;
        let ghost prefix = s@.subrange(start as int, i as int + 1);
        assert(prefix.drop_last() =~= s@.subrange(start as int, i as int));
        assert(prefix.last() == c);
        proof {
            assert forall|k: int| 0 <= k < prefix.len() implies #[trigger] digit(prefix[k]) by {
                if k < prefix.len() - 1 {
                    assert(prefix[k] == s@.subrange(start as int, i as int)[k]);
                }
            }
        }
        assert(decimal_value(prefix) == value as int * 10 + dv as int);
        if max < dv || value > (max - dv) / 10 {
            proof {
                if max >= dv {
                    assert(value as int * 10 + dv as int > max) by (nonlinear_arith)
                        requires
                            value > (max - dv) / 10,
                            dv <= 9,
                            max >= dv,
                    ;
                }
                let rest = s@.subrange(start as int, s@.len() as int);
                assert(rest.subrange(0, (i - start + 1) as int) =~= prefix);
                lemma_decimal_nonneg(prefix.drop_last());
                lemma_decimal_prefix_bound(rest, (i - start + 1) as int, max as int);
            }
            return None;
        }
        proof {
            assert(value as int * 10 + dv as int <= max) by (nonlinear_arith)
                requires
                    value <= (max - dv) / 10,
                    max >= dv,
            ;
        }
        value = value * 10 + dv;
        i = i + 1;
    }
    proof {
        lemma_decimal_nonneg(d);
    }
    Some(value)
}

/// Parse a `usize` the way `str::parse::<usize>` does.
pub fn parse_usize(s: &Vec<char>) -> (r: Option<usize>)
    ensures
        match parse_unsigned(s@, usize::MAX as int) {
            Some(v) => 0 <= v <= usize::MAX && r == Some(v as usize),
            None => r is None,
        },
{
    let max: u64 = usize::MAX as u64;
    match parse_unsigned_exec(s, max) {
        Some(v) => {
            assert(v <= usize::MAX);
            Some(v as usize)
        },
        None => None,
    }
}

/// Parse a `u16` the way `str::parse::<u16>` does.
pub fn parse_u16(s: &Vec<char>) -> (r: Option<u16>)
    ensures
        match parse_unsigned(s@, u16::MAX as int) {
            Some(v) => 0 <= v <= u16::MAX && r == Some(v as u16),
            None => r is None,
        },
{
    match parse_unsigned_exec(s, 65535) {
        Some(v) => {
            assert(v <= 65535);
            Some(v as u16)
        },
        None => None,
    }
}

/// The lines of `text` as `str::lines` yields them, each without its
/// trailing carriage returns.
pub open spec fn strip_cr(s: Seq<char>) -> Seq<char>
    decreases s.len(),
{
    if s.len() > 0 && s.last() == '\r' {
        strip_cr(s.drop_last())
    } else {
        s
    }
}

/// The lines of `text`: the parts between line feeds, without a final empty
/// part, each without trailing carriage returns.
pub open spec fn spec_lines(text: Seq<char>) -> Seq<Seq<char>>
    decreases text.len(),
{
    spec_lines_from(text, Seq::empty(), Seq::empty())
}

/// Lines of `rest`, continuing a line already begun with `current` after the
/// finished lines `done`.
pub open spec fn spec_lines_from(rest: Seq<char>, current: Seq<char>, done: Seq<Seq<char>>) -> Seq<
    Seq<char>,
>
    decreases rest.len(),
{
    if rest.len() == 0 {
        if current.len() == 0 {
            done
        } else {
            done.push(strip_cr(current))
        }
    } else if rest[0] == '\n' {
        spec_lines_from(rest.drop_first(), Seq::empty(), done.push(strip_cr(current)))
    } else {
        spec_lines_from(rest.drop_first(), current.push(rest[0]), done)
    }
}

/// `text` with every line feed preceded by a carriage return (its CRLF form).
pub open spec fn crlf(text: Seq<char>) -> Seq<char>
    decreases text.len(),
{
    if text.len() == 0 {
        text
    } else if text[0] == '\n' {
        seq!['\r', '\n'] + crlf(text.drop_first())
    } else {
        seq![text[0]] + crlf(text.drop_first())
    }
}

proof fn lemma_crlf_lines_from(rest: Seq<char>, current: Seq<char>, done: Seq<Seq<char>>)
    ensures
        spec_lines_from(crlf(rest), current, done) == spec_lines_from(rest, current, done),
    decreases rest.len(),
{
    let c = crlf(rest);
    if rest.len() > 0 {
        let tail = rest.drop_first();
        lemma_crlf_lines_from(tail, Seq::empty(), done.push(strip_cr(current)));
        lemma_crlf_lines_from(tail, current.push(rest[0]), done);
        if rest[0] == '\n' {
            assert(c[0] == '\r');
            assert(c.drop_first() =~= seq!['\n'] + crlf(tail));
            let c1 = c.drop_first();
            assert(c1[0] == '\n');
            assert(c1.drop_first() =~= crlf(tail));
            assert(current.push('\r').drop_last() =~= current);
            assert(strip_cr(current.push('\r')) == strip_cr(current));
            assert(spec_lines_from(c, current, done) == spec_lines_from(c1, current.push('\r'), done));
            assert(spec_lines_from(c1, current.push('\r'), done) == spec_lines_from(
                crlf(tail),
                Seq::empty(),
                done.push(strip_cr(current.push('\r'))),
            ));
            assert(spec_lines_from(rest, current, done) == spec_lines_from(
                tail,
                Seq::empty(),
                done.push(strip_cr(current)),
            ));
        } else {
            assert(c[0] == rest[0]);
            assert(c.drop_first() =~= crlf(tail));
            assert(spec_lines_from(c, current, done) == spec_lines_from(crlf(tail), current.push(rest[0]), done));
            assert(spec_lines_from(rest, current, done) == spec_lines_from(tail, current.push(rest[0]), done));
        }
    } else {
        assert(c =~= rest);
    }
}

/// Line endings do not matter: a text and its CRLF form have the same lines.
pub proof fn lemma_crlf_keeps_lines(text: Seq<char>)
    ensures
        spec_lines(crlf(text)) == spec_lines(text),
{
    lemma_crlf_lines_from(text, Seq::empty(), Seq::empty());
}

fn strip_cr_exec(s: Vec<char>) -> (r: Vec<char>)
    ensures
        r@ == strip_cr(s@),
{
    let mut out = s;
    while out.len() > 0 && out[out.len() - 1] == '\r'
        invariant
            strip_cr(out@) == strip_cr(s@),
        decreases out@.len(),
    {
        let ghost before = out@;
        out.pop();
        assert(out@ =~= before.drop_last());
    }
    out
}

/// Split text into lines.
pub fn split_lines(text: &str) -> (r: Vec<Vec<char>>)
    ensures
        r@.len() == spec_lines(text@).len(),
        forall|i: int| 0 <= i < r@.len() ==> #[trigger] r@[i]@ == spec_lines(text@)[i],
{
    let chars = chars_of(text);
    let mut done: Vec<Vec<char>> = Vec::new();
    let mut current: Vec<char> = Vec::new();
    let mut i: usize = 0;
    assert(chars@.subrange(0, chars@.len() as int) =~= chars@);
    assert(done@.map_values(|l: Vec<char>| l@) =~= Seq::<Seq<char>>::empty());
    assert(current@ =~= Seq::<char>::empty());
    while i < chars.len()
        invariant
            i <= chars@.len(),
            chars@ == text@,
            spec_lines(text@) == spec_lines_from(
                chars@.subrange(i as int, chars@.len() as int),
                current@,
                done@.map_values(|l: Vec<char>| l@),
            ),
        decreases chars.len() - i,
    {
        let ghost rest = chars@.subrange(i as int, chars@.len() as int);
        assert(rest.drop_first() =~= chars@.subrange(i as int + 1, chars@.len() as int));
        if chars[i] == '\n' {
            let line = strip_cr_exec(current);
            let ghost old_done = done@;
            done.push(line);
            assert(done@.map_values(|l: Vec<char>| l@) =~= old_done.map_values(|l: Vec<char>| l@).push(
                strip_cr(current@),
            ));
            current = Vec::new();
            assert(current@ =~= Seq::<char>::empty());
        } else {
            let ghost old_current = current@;
            current.push(chars[i]);
            assert(current@ == old_current.push(rest[0]));
        }
        i = i + 1;
    }
    assert(chars@.subrange(i as int, chars@.len() as int) =~= Seq::<char>::empty());
    if current.len() > 0 {
        let line = strip_cr_exec(current);
        let ghost old_done = done@;
        done.push(line);
        assert(done@.map_values(|l: Vec<char>| l@) =~= old_done.map_values(|l: Vec<char>| l@).push(
            strip_cr(current@),
        ));
    }
    done
}

/// The characters of `s` from index `k` on.
pub fn suffix_from(s: &Vec<char>, k: usize) -> (r: Vec<char>)
    requires
        k <= s@.len(),
    ensures
        r@ == s@.subrange(k as int, s@.len() as int),
{
    let mut out: Vec<char> = Vec::new();
    let mut i: usize = k;
    while i < s.len()
        invariant
            k <= i <= s@.len(),
            out@ == s@.subrange(k as int, i as int),
        decreases s.len() - i,
    {
        out.push(s[i]);
        assert(out@ =~= s@.subrange(k as int, i as int + 1));
        i = i + 1;
    }
    out
}

/// `a`, a space, then `b`.
pub fn join_space(a: &Vec<char>, b: &Vec<char>) -> (r: Vec<char>)
    ensures
        r@ == a@ + seq![' '] + b@,
{
    let mut out: Vec<char> = Vec::new();
    let mut i: usize = 0;
    while i < a.len()
        invariant
            i <= a@.len(),
            out@ == a@.subrange(0, i as int),
        decreases a.len() - i,
    {
        out.push(a[i]);
        assert(out@ =~= a@.subrange(0, i as int + 1));
        i = i + 1;
    }
    out.push(' ');
    let mut j: usize = 0;
    while j < b.len()
        invariant
            j <= b@.len(),
            out@ == a@ + seq![' '] + b@.subrange(0, j as int),
        decreases b.len() - j,
    {
        out.push(b[j]);
        assert(out@ =~= a@ + seq![' '] + b@.subrange(0, j as int + 1));
        j = j + 1;
    }
    assert(b@.subrange(0, b@.len() as int) =~= b@);
    assert(a@.subrange(0, a@.len() as int) =~= a@);
    out
}

/// The character of decimal digit `d`.
pub open spec fn digit_char(d: int) -> char {
    ((48 + d) as u8) as char
}

/// The decimal numeral of `n`, without leading zeros.
pub open spec fn decimal_text(n: nat) -> Seq<char>
    decreases n,
{
    if n < 10 {
        seq![digit_char(n as int)]
    } else {
        decimal_text(n / 10).push(digit_char((n % 10) as int))
    }
}

fn digit_to_char(d: u64) -> (c: char)
    requires
        d < 10,
    ensures
        c == digit_char(d as int),
{
    let b: u8 = 48u8 + d as u8;
    b as char
}

/// The decimal numeral of `n`.
pub fn decimal(n: u64) -> (r: Vec<char>)
    ensures
        r@ == decimal_text(n as nat),
    decreases n,
{
    if n < 10 {
        let mut v: Vec<char> = Vec::new();
        v.push(digit_to_char(n));
        v
    } else {
        let mut v = decimal(n / 10);
        v.push(digit_to_char(n % 10));
        v
    }
}

/// The string of the characters `chars`: `String`'s `FromIterator<char>`.
#[verifier::external_body]
pub(crate) fn string_from_chars(chars: &Vec<char>) -> (s: String)
    ensures
        s@ == chars@,
{
    String::from_iter(chars.iter())
}

} // verus!
