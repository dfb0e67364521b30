use vstd::prelude::*;

verus! {

/// Appends one character to a string (`String::push`).
#[verifier::external_body]
pub(crate) fn push_char(s: &mut String, c: char)
    ensures
        final(s)@ == old(s)@.push(c),
{
    s.push(c);
}

/// Appends a string slice to a string (`String::push_str`).
#[verifier::external_body]
pub(crate) fn push_str(s: &mut String, tail: &str)
    ensures
        final(s)@ == old(s)@ + tail@,
{
    s.push_str(tail);
}

/// The characters of a string slice, in order.
pub fn chars_of(s: &str) -> (out: Vec<char>)
    ensures
        out@ == s@,
{
    let mut out: Vec<char> = Vec::new();
    for c in it: s.chars()
        invariant
            out@ == it.seq().take(it.index() as int),
            it.seq() == s@,
    {
        out.push(c);
    }
    out
}

/// A string holding exactly the given characters.
pub fn string_from_chars(v: &Vec<char>) -> (s: String)
    ensures
        s@ == v@,
{
    let mut s = String::new();
    let mut i: usize = 0;
    while i < v.len()
        invariant
            i <= v.len(),
            s@ == v@.take(i as int),
        decreases v.len() - i,
    {
        push_char(&mut s, v[i]);
        assert(v@.take(i + 1) =~= v@.take(i as int).push(v@[i as int]));
        i = i + 1;
    }
    assert(v@.take(v.len() as int) =~= v@);
    s
}

/// The pieces joined with `sep` between consecutive pieces.
pub open spec fn join_with(parts: Seq<Seq<char>>, sep: char) -> Seq<char>
    decreases parts.len(),
{
    if parts.len() == 0 {
        Seq::empty()
    } else if parts.len() == 1 {
        parts[0]
    } else {
        join_with(parts.drop_last(), sep).push(sep) + parts.last()
    }
}

/// Joins the pieces with `sep`.
pub fn join_chars(parts: &Vec<Vec<char>>, sep: char, ghost_parts: Ghost<Seq<Seq<char>>>) -> (out: Vec<char>)
    requires
        ghost_parts@.len() == parts.len(),
        forall|i: int| 0 <= i < parts.len() ==> #[trigger] parts[i]@ == ghost_parts@[i],
    ensures
        out@ == join_with(ghost_parts@, sep),
{
    let mut out: Vec<char> = Vec::new();
    let mut i: usize = 0;
    while i < parts.len()
        invariant
            i <= parts.len(),
            ghost_parts@.len() == parts.len(),
            forall|j: int| 0 <= j < parts.len() ==> #[trigger] parts[j]@ == ghost_parts@[j],
            out@ == join_with(ghost_parts@.take(i as int), sep),
        decreases parts.len() - i,
    {
        let ghost before = out@;
        if i > 0 {
            out.push(sep);
        }
        let p = &parts[i];
        let mut k: usize = 0;
        let ghost mid = out@;
        while k < p.len()
            invariant
                k <= p.len(),
                out@ == mid + p@.take(k as int),
            decreases p.len() - k,
        {
            out.push(p[k]);
            assert(p@.take(k + 1) =~= p@.take(k as int).push(p@[k as int]));
            k = k + 1;
        }
        assert(p@.take(p.len() as int) =~= p@);
        assert(ghost_parts@.take(i + 1).drop_last() =~= ghost_parts@.take(i as int));
        assert(ghost_parts@.take(i + 1).last() == p@);
        if i == 0 {
            assert(out@ =~= join_with(ghost_parts@.take(1), sep));
        } else {
            assert(out@ =~= join_with(ghost_parts@.take(i + 1), sep));
        }
        i = i + 1;
    }
    assert(ghost_parts@.take(parts.len() as int) =~= ghost_parts@);
    out
}

/// ASCII lower-casing of one character; other characters are unchanged.
pub open spec fn ascii_lower(c: char) -> char {
    if 'A' <= c && c <= 'Z' {
        ((c as u32) + 32) as char
    } else {
        c
    }
}

/// ASCII lower-casing of every character.
pub open spec fn ascii_lower_seq(s: Seq<char>) -> Seq<char> {
    Seq::new(s.len(), |i: int| ascii_lower(s[i]))
}

pub fn ascii_lower_char(c: char) -> (out: char)
    ensures
        out == ascii_lower(c),
{
    if c >= 'A' && c <= 'Z' {
        let b = (c as u8) + 32;
        b as char
    } else {
        c
    }
}

/// `str::to_ascii_lowercase`.
pub fn to_ascii_lowercase(s: &str) -> (out: String)
    ensures
        out@ == ascii_lower_seq(s@),
{
    let chars = chars_of(s);
    let mut lowered: Vec<char> = Vec::new();
    let mut i: usize = 0;
    while i < chars.len()
        invariant
            i <= chars.len(),
            chars@ == s@,
            lowered@ == ascii_lower_seq(s@).take(i as int),
        decreases chars.len() - i,
    {
        lowered.push(ascii_lower_char(chars[i]));
        assert(ascii_lower_seq(s@).take(i + 1) =~= ascii_lower_seq(s@).take(i as int).push(ascii_lower(chars@[i as int])));
        i = i + 1;
    }
    assert(ascii_lower_seq(s@).take(chars.len() as int) =~= ascii_lower_seq(s@));
    string_from_chars(&lowered)
}

/// Character-wise equality of two strings.
pub fn str_equal(a: &str, b: &str) -> (eq: bool)
    ensures
        eq == (a@ == b@),
{
    let x = chars_of(a);
    let y = chars_of(b);
    if x.len() != y.len() {
        return false;
    }
    let mut i: usize = 0;
    while i < x.len()
        invariant
            i <= x.len() == y.len(),
            x@ == a@,
            y@ == b@,
            forall|j: int| 0 <= j < i ==> x@[j] == y@[j],
        decreases x.len() - i,
    {
        if x[i] != y[i] {
            return false;
        }
        i = i + 1;
    }
    assert(x@ =~= y@);
    true
}


/// Characters with the Unicode `White_Space` property (what `char::is_whitespace` tests).
pub open spec fn is_space(c: char) -> bool {
    ('\u{9}' <= c && c <= '\u{d}') || c == ' ' || c == '\u{85}' || c == '\u{a0}' || c == '\u{1680}'
        || ('\u{2000}' <= c && c <= '\u{200a}') || c == '\u{2028}' || c == '\u{2029}' || c == '\u{202f}'
        || c == '\u{205f}' || c == '\u{3000}'
}

pub fn is_space_char(c: char) -> (b: bool)
    ensures
        b == is_space(c),
{
    ('\u{9}' <= c && c <= '\u{d}') || c == ' ' || c == '\u{85}' || c == '\u{a0}' || c == '\u{1680}'
        || ('\u{2000}' <= c && c <= '\u{200a}') || c == '\u{2028}' || c == '\u{2029}' || c == '\u{202f}'
        || c == '\u{205f}' || c == '\u{3000}'
}

/// Index of the first non-space character at or after `i` (the length if there is none).
pub open spec fn first_non_space(s: Seq<char>, i: int) -> int
    decreases s.len() - i,
{
    if i < 0 || i >= s.len() {
        s.len() as int
    } else if is_space(s[i]) {
        first_non_space(s, i + 1)
    } else {
        i
    }
}

/// End of the text in `s[lo..j]` once trailing spaces are dropped.
pub open spec fn end_without_spaces(s: Seq<char>, lo: int, j: int) -> int
    decreases j - lo,
{
    if j <= lo {
        lo
    } else if is_space(s[j - 1]) {
        end_without_spaces(s, lo, j - 1)
    } else {
        j
    }
}

/// `str::trim`: the text without leading and trailing white space.
pub open spec fn trimmed(s: Seq<char>) -> Seq<char> {
    let a = first_non_space(s, 0);
    s.subrange(a, end_without_spaces(s, a, s.len() as int))
}

proof fn lemma_first_non_space_bounds(s: Seq<char>, i: int)
    requires
        0 <= i <= s.len(),
    ensures
        i <= first_non_space(s, i) <= s.len(),
    decreases s.len() - i,
{
    if i < s.len() && is_space(s[i]) {
        lemma_first_non_space_bounds(s, i + 1);
    }
}

proof fn lemma_end_bounds(s: Seq<char>, lo: int, j: int)
    requires
        lo <= j,
    ensures
        lo <= end_without_spaces(s, lo, j) <= j,
    decreases j - lo,
{
    if j > lo && is_space(s[j - 1]) {
        lemma_end_bounds(s, lo, j - 1);
    }
}

/// `str::trim`, returned as an owned string.
pub fn trim_spaces(text: &str) -> (out: String)
    ensures
        out@ == trimmed(text@),
{
    let chars = chars_of(text);
    let n = chars.len();
    let mut a: usize = 0;
    while a < n && is_space_char(chars[a])
        invariant
            a <= n == chars@.len(),
            chars@ == text@,
            first_non_space(text@, 0) == first_non_space(text@, a as int),
        decreases n - a,
    {
        a = a + 1;
    }
    let mut b: usize = n;
    while b > a && is_space_char(chars[b - 1])
        invariant
            a <= b <= n == chars@.len(),
            chars@ == text@,
            end_without_spaces(text@, a as int, n as int) == end_without_spaces(text@, a as int, b as int),
        decreases b - a,
    {
        b = b - 1;
    }
    let mut kept: Vec<char> = Vec::new();
    let mut k: usize = a;
    while k < b
        invariant
            a <= k <= b <= n == chars@.len(),
            chars@ == text@,
            kept@ == text@.subrange(a as int, k as int),
        decreases b - k,
    {
        kept.push(chars[k]);
        assert(text@.subrange(a as int, k + 1) =~= text@.subrange(a as int, k as int).push(text@[k as int]));
        k = k + 1;
    }
    string_from_chars(&kept)
}


/// The character for a digit value below 16 (lower-case hexadecimal).
pub open spec fn digit_char(d: int) -> char {
    if d < 10 {
        ((d + 48) as u32) as char
    } else {
        ((d + 87) as u32) as char
    }
}

fn digit_char_exec(d: u8) -> (c: char)
    requires
        d < 16,
    ensures
        c == digit_char(d as int),
{
    if d < 10 {
        (d + 48) as char
    } else {
        (d + 87) as char
    }
}

/// Decimal notation of a natural number, without leading zeros.
pub open spec fn decimal(n: nat) -> Seq<char>
    decreases n,
{
    if n < 10 {
        seq![digit_char(n as int)]
    } else {
        decimal(n / 10).push(digit_char((n % 10) as int))
    }
}

/// The last `width` hexadecimal digits of `n`, most significant first.
pub open spec fn hex_fixed(n: nat, width: nat) -> Seq<char>
    decreases width,
{
    if width == 0 {
        Seq::empty()
    } else {
        hex_fixed(n / 16, (width - 1) as nat).push(digit_char((n % 16) as int))
    }
}

/// Decimal notation of `n` (`u64`'s `Display`).
pub fn decimal_text(n: u64) -> (out: String)
    ensures
        out@ == decimal(n as nat),
{
    let mut digits: Vec<char> = Vec::new();
    let mut rest: u64 = n;
    while rest >= 10
        invariant
            decimal(n as nat) == decimal(rest as nat) + digits@,
        decreases rest,
    {
        let d = (rest % 10) as u8;
        let c = digit_char_exec(d);
        let ghost old_digits = digits@;
        digits.insert(0, c);
        assert(decimal(rest as nat) == decimal((rest / 10) as nat).push(c));
        assert(decimal((rest / 10) as nat).push(c) + old_digits =~= decimal((rest / 10) as nat) + digits@);
        rest = rest / 10;
    }
    let c = digit_char_exec(rest as u8);
    digits.insert(0, c);
    assert(decimal(rest as nat) == seq![c]);
    assert(decimal(n as nat) =~= digits@);
    string_from_chars(&digits)
}

/// The lower-case hexadecimal digits of the low `width` digits of `n`.
fn hex_digits(n: u128, width: usize) -> (out: Vec<char>)
    requires
        width <= 32,
    ensures
        out@ == hex_fixed(n as nat, width as nat),
{
    let mut digits: Vec<char> = Vec::new();
    let mut rest: u128 = n;
    let mut k: usize = 0;
    while k < width
        invariant
            k <= width,
            hex_fixed(n as nat, width as nat) == hex_fixed(rest as nat, (width - k) as nat) + digits@,
        decreases width - k,
    {
        let d = (rest % 16) as u8;
        let c = digit_char_exec(d);
        let ghost old_digits = digits@;
        digits.insert(0, c);
        assert(hex_fixed(rest as nat, (width - k) as nat) == hex_fixed((rest / 16) as nat, (width - k - 1) as nat).push(c));
        assert(hex_fixed((rest / 16) as nat, (width - k - 1) as nat).push(c) + old_digits
            =~= hex_fixed((rest / 16) as nat, (width - k - 1) as nat) + digits@);
        rest = rest / 16;
        k = k + 1;
    }
    assert(hex_fixed(rest as nat, 0) =~= Seq::<char>::empty());
    assert(hex_fixed(n as nat, width as nat) =~= digits@);
    digits
}

/// The hyphenated lower-case form of a 128-bit identifier (8-4-4-4-12 hexadecimal digits),
/// as a UUID is displayed.
pub open spec fn uuid_hyphenated(id: u128) -> Seq<char> {
    let h = hex_fixed(id as nat, 32);
    h.subrange(0, 8) + seq!['-'] + h.subrange(8, 12) + seq!['-'] + h.subrange(12, 16) + seq!['-']
        + h.subrange(16, 20) + seq!['-'] + h.subrange(20, 32)
}

pub proof fn lemma_hex_fixed_len(n: nat, width: nat)
    ensures
        hex_fixed(n, width).len() == width,
    decreases width,
{
    if width > 0 {
        lemma_hex_fixed_len(n / 16, (width - 1) as nat);
    }
}

fn append_range(out: &mut Vec<char>, h: &Vec<char>, from: usize, to: usize)
    requires
        from <= to <= h.len(),
    ensures
        final(out)@ == old(out)@ + h@.subrange(from as int, to as int),
{
    let ghost start = out@;
    let mut k: usize = from;
    while k < to
        invariant
            from <= k <= to <= h.len(),
            out@ == start + h@.subrange(from as int, k as int),
        decreases to - k,
    {
        out.push(h[k]);
        assert(h@.subrange(from as int, k + 1) =~= h@.subrange(from as int, k as int).push(h@[k as int]));
        k = k + 1;
    }
}

/// The hyphenated text of a UUID given by its 128-bit value.
pub fn uuid_text(id: u128) -> (out: String)
    ensures
        out@ == uuid_hyphenated(id),
{
    let h = hex_digits(id, 32);
    proof { lemma_hex_fixed_len(id as nat, 32); }
    let mut out: Vec<char> = Vec::new();
    append_range(&mut out, &h, 0, 8);
    out.push('-');
    append_range(&mut out, &h, 8, 12);
    out.push('-');
    append_range(&mut out, &h, 12, 16);
    out.push('-');
    append_range(&mut out, &h, 16, 20);
    out.push('-');
    append_range(&mut out, &h, 20, 32);
    assert(out@ =~= uuid_hyphenated(id));
    string_from_chars(&out)
}


/// First index at or after `i` holding `a` or `b` (the length if there is none).
pub open spec fn find_either(s: Seq<char>, i: int, a: char, b: char) -> int
    decreases s.len() - i,
{
    if i < 0 || i >= s.len() {
        s.len() as int
    } else if s[i] == a || s[i] == b {
        i
    } else {
        find_either(s, i + 1, a, b)
    }
}

proof fn lemma_find_either_bounds(s: Seq<char>, i: int, a: char, b: char)
    requires
        0 <= i <= s.len(),
    ensures
        i <= find_either(s, i, a, b) <= s.len(),
    decreases s.len() - i,
{
    if i < s.len() && !(s[i] == a || s[i] == b) {
        lemma_find_either_bounds(s, i + 1, a, b);
    }
}

fn find_either_exec(s: &Vec<char>, from: usize, to: usize, a: char, b: char) -> (k: usize)
    requires
        from <= to <= s.len(),
    ensures
        k == find_either(s@.subrange(0, to as int), from as int, a, b),
        from <= k <= to,
{
    let ghost t = s@.subrange(0, to as int);
    let mut i: usize = from;
    proof { lemma_find_either_bounds(t, from as int, a, b); }
    while i < to && s[i] != a && s[i] != b
        invariant
            from <= i <= to <= s.len(),
            t == s@.subrange(0, to as int),
            find_either(t, from as int, a, b) == find_either(t, i as int, a, b),
        decreases to - i,
    {
        i = i + 1;
    }
    i
}

pub open spec fn is_digit(c: char) -> bool {
    '0' <= c && c <= '9'
}

pub open spec fn digits_only(s: Seq<char>) -> bool {
    forall|i: int| 0 <= i < s.len() ==> #[trigger] is_digit(s[i])
}

fn digits_only_exec(s: &Vec<char>, from: usize, to: usize) -> (b: bool)
    requires
        from <= to <= s.len(),
    ensures
        b == digits_only(s@.subrange(from as int, to as int)),
{
    let mut i: usize = from;
    while i < to
        invariant
            from <= i <= to <= s.len(),
            forall|j: int| from <= j < i ==> #[trigger] is_digit(s@[j]),
        decreases to - i,
    {
        if !(s[i] >= '0' && s[i] <= '9') {
            assert(!is_digit(s@.subrange(from as int, to as int)[i - from]));
            return false;
        }
        i = i + 1;
    }
    assert forall|j: int| 0 <= j < to - from implies #[trigger] is_digit(s@.subrange(from as int, to as int)[j]) by {
        assert(is_digit(s@[from + j]));
    }
    true
}

/// The digits of a decimal number with an optional fraction: `d+`, `d+.d*` or `d*.d+`.
pub open spec fn mantissa_ok(m: Seq<char>) -> bool {
    let d = find_either(m, 0, '.', '.');
    if d == m.len() {
        m.len() > 0 && digits_only(m)
    } else {
        digits_only(m.subrange(0, d)) && digits_only(m.subrange(d + 1, m.len() as int)) && (d > 0 || m.len() > d + 1)
    }
}

/// The text after an exponent mark: an optional sign and at least one digit.
pub open spec fn exponent_ok(x: Seq<char>) -> bool {
    let body = if x.len() > 0 && (x[0] == '+' || x[0] == '-') { x.drop_first() } else { x };
    body.len() > 0 && digits_only(body)
}

/// A decimal number with an optional exponent (`e` or `E`).
pub open spec fn number_ok(s: Seq<char>) -> bool {
    let e = find_either(s, 0, 'e', 'E');
    mantissa_ok(s.subrange(0, e)) && (e == s.len() || exponent_ok(s.subrange(e + 1, s.len() as int)))
}

/// `s` is `word` up to ASCII case.
pub open spec fn is_word(s: Seq<char>, word: Seq<char>) -> bool {
    ascii_lower_seq(s) == word
}

/// The syntax `f64`'s `FromStr` accepts: an optional sign, then `inf`, `infinity` or `nan` in
/// any case, or a decimal number with an optional exponent.
pub open spec fn float_syntax(s: Seq<char>) -> bool {
    let body = if s.len() > 0 && (s[0] == '+' || s[0] == '-') { s.drop_first() } else { s };
    is_word(body, "inf"@) || is_word(body, "infinity"@) || is_word(body, "nan"@) || number_ok(body)
}

fn mantissa_ok_exec(s: &Vec<char>, from: usize, to: usize) -> (b: bool)
    requires
        from <= to <= s.len(),
    ensures
        b == mantissa_ok(s@.subrange(from as int, to as int)),
{
    let ghost m = s@.subrange(from as int, to as int);
    let mut i: usize = from;
    while i < to && s[i] != '.'
        invariant
            from <= i <= to <= s.len(),
            m == s@.subrange(from as int, to as int),
            find_either(m, 0, '.', '.') == find_either(m, i - from, '.', '.'),
        decreases to - i,
    {
        i = i + 1;
    }
    assert(find_either(m, 0, '.', '.') == i - from);
    if i == to {
        to > from && digits_only_exec(s, from, to)
    } else {
        assert(m.subrange(0, i - from) =~= s@.subrange(from as int, i as int));
        assert(m.subrange(i - from + 1, m.len() as int) =~= s@.subrange(i + 1, to as int));
        digits_only_exec(s, from, i) && digits_only_exec(s, i + 1, to) && (i > from || to > i + 1)
    }
}

fn exponent_ok_exec(s: &Vec<char>, from: usize, to: usize) -> (b: bool)
    requires
        from <= to <= s.len(),
    ensures
        b == exponent_ok(s@.subrange(from as int, to as int)),
{
    let ghost x = s@.subrange(from as int, to as int);
    if from < to && (s[from] == '+' || s[from] == '-') {
        assert(x.drop_first() =~= s@.subrange(from + 1, to as int));
        from + 1 < to && digits_only_exec(s, from + 1, to)
    } else {
        from < to && digits_only_exec(s, from, to)
    }
}

fn is_word_exec(s: &Vec<char>, from: usize, word: &str) -> (b: bool)
    requires
        from <= s.len(),
    ensures
        b == is_word(s@.subrange(from as int, s.len() as int), word@),
{
    let w = chars_of(word);
    let ghost body = s@.subrange(from as int, s.len() as int);
    if s.len() - from != w.len() {
        assert(ascii_lower_seq(body).len() != word@.len());
        return false;
    }
    let mut i: usize = 0;
    while i < w.len()
        invariant
            i <= w.len() == s.len() - from,
            w@ == word@,
            body == s@.subrange(from as int, s.len() as int),
            forall|j: int| 0 <= j < i ==> ascii_lower(#[trigger] body[j]) == w@[j],
        decreases w.len() - i,
    {
        if ascii_lower_char(s[from + i]) != w[i] {
            assert(ascii_lower_seq(body)[i as int] != word@[i as int]);
            return false;
        }
        i = i + 1;
    }
    assert(ascii_lower_seq(body) =~= word@);
    true
}

/// Whether the text has the syntax `f64`'s `FromStr` accepts.
pub fn float_syntax_ok(text: &str) -> (b: bool)
    ensures
        b == float_syntax(text@),
{
    let s = chars_of(text);
    let n = s.len();
    let start: usize = if n > 0 && (s[0] == '+' || s[0] == '-') { 1 } else { 0 };
    let ghost body = s@.subrange(start as int, n as int);
    assert(body =~= (if text@.len() > 0 && (text@[0] == '+' || text@[0] == '-') { text@.drop_first() } else { text@ }));
    if is_word_exec(&s, start, "inf") || is_word_exec(&s, start, "infinity") || is_word_exec(&s, start, "nan") {
        return true;
    }
    let e = find_either_exec(&s, start, n, 'e', 'E');
    proof {
        assert(s@.subrange(0, n as int) =~= s@);
        lemma_find_either_shift(s@, start as int, 'e', 'E');
    }
    assert(find_either(body, 0, 'e', 'E') == e - start);
    assert(body.subrange(0, e - start) =~= s@.subrange(start as int, e as int));
    if !mantissa_ok_exec(&s, start, e) {
        return false;
    }
    if e == n {
        return true;
    }
    assert(body.subrange(e - start + 1, body.len() as int) =~= s@.subrange(e + 1, n as int));
    exponent_ok_exec(&s, e + 1, n)
}

proof fn lemma_find_either_shift(s: Seq<char>, start: int, a: char, b: char)
    requires
        0 <= start <= s.len(),
    ensures
        find_either(s.subrange(start, s.len() as int), 0, a, b) == find_either(s, start, a, b) - start,
{
    lemma_find_either_shift_from(s, start, 0, a, b);
}

proof fn lemma_find_either_shift_from(s: Seq<char>, start: int, i: int, a: char, b: char)
    requires
        0 <= start <= s.len(),
        0 <= i <= s.len() - start,
    ensures
        find_either(s.subrange(start, s.len() as int), i, a, b) == find_either(s, start + i, a, b) - start,
    decreases s.len() - start - i,
{
    let t = s.subrange(start, s.len() as int);
    if i < t.len() {
        assert(t[i] == s[start + i]);
        if !(t[i] == a || t[i] == b) {
            lemma_find_either_shift_from(s, start, i + 1, a, b);
        }
    }
}

} // verus!
