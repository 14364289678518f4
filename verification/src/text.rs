//! Character-level string operations, each stated over the characters of a text.

use vstd::prelude::*;

verus! {

/// `String::push` appends one character.
pub assume_specification[ String::push ](s: &mut String, c: char)
    ensures
        final(s)@ == old(s)@.push(c),
;

// ── models ──────────────────────────────────────────────────────────
/// The characters of each text in a list.
pub open spec fn views(texts: Seq<String>) -> Seq<Seq<char>> {
    Seq::new(texts.len(), |i: int| texts[i]@)
}

/// The characters of an optional text.
pub open spec fn opt_view(text: Option<String>) -> Option<Seq<char>> {
    match text {
        Some(s) => Some(s@),
        None => None,
    }
}

/// The characters of an optional borrowed text.
pub open spec fn opt_str_view(text: Option<&str>) -> Option<Seq<char>> {
    match text {
        Some(s) => Some(s@),
        None => None,
    }
}

/// The Unicode `White_Space` property.
pub open spec fn is_white(c: char) -> bool {
    let u = c as u32;
    ||| 0x09 <= u <= 0x0D
    ||| u == 0x20
    ||| u == 0x85
    ||| u == 0xA0
    ||| u == 0x1680
    ||| 0x2000 <= u <= 0x200A
    ||| u == 0x2028
    ||| u == 0x2029
    ||| u == 0x202F
    ||| u == 0x205F
    ||| u == 0x3000
}

/// A text without its leading white space.
pub open spec fn trim_start_of(s: Seq<char>) -> Seq<char>
    decreases s.len(),
{
    if s.len() > 0 && is_white(s[0]) {
        trim_start_of(s.skip(1))
    } else {
        s
    }
}

/// A text without its trailing white space.
pub open spec fn trim_end_of(s: Seq<char>) -> Seq<char>
    decreases s.len(),
{
    if s.len() > 0 && is_white(s.last()) {
        trim_end_of(s.drop_last())
    } else {
        s
    }
}

/// A text without white space at either end.
pub open spec fn trim_of(s: Seq<char>) -> Seq<char> {
    trim_end_of(trim_start_of(s))
}

/// Whether a text neither begins nor ends with white space.
pub open spec fn is_trimmed(s: Seq<char>) -> bool {
    s.len() > 0 ==> !is_white(s[0]) && !is_white(s.last())
}

/// Trimming leaves no white space at either end, and leaves a text alone that has none.
pub proof fn lemma_trim(s: Seq<char>)
    ensures
        is_trimmed(trim_of(s)),
        is_trimmed(s) ==> trim_of(s) == s,
{
    lemma_trim_start(s);
    lemma_trim_end(trim_start_of(s));
}

proof fn lemma_trim_start(s: Seq<char>)
    ensures
        trim_start_of(s).len() > 0 ==> !is_white(trim_start_of(s)[0]),
    decreases s.len(),
{
    if s.len() > 0 && is_white(s[0]) {
        lemma_trim_start(s.skip(1));
    }
}

proof fn lemma_trim_end(s: Seq<char>)
    ensures
        trim_end_of(s).len() > 0 ==> s.len() > 0 && trim_end_of(s)[0] == s[0] && !is_white(
            trim_end_of(s).last(),
        ),
    decreases s.len(),
{
    if s.len() > 0 && is_white(s.last()) {
        lemma_trim_end(s.drop_last());
    }
}

/// Where `c` first occurs in `s`, or the length of `s` if it does not occur.
pub open spec fn find_char(s: Seq<char>, c: char) -> int
    decreases s.len(),
{
    if s.len() == 0 || s[0] == c {
        0
    } else {
        1 + find_char(s.skip(1), c)
    }
}

/// What stands before and after the first `c`, if there is one.
pub open spec fn split_once_of(s: Seq<char>, c: char) -> Option<(Seq<char>, Seq<char>)> {
    let at = find_char(s, c);
    if at < s.len() {
        Some((s.take(at), s.skip(at + 1)))
    } else {
        None
    }
}

/// The pieces of `s` between the occurrences of `c`.
pub open spec fn split_on(s: Seq<char>, c: char) -> Seq<Seq<char>>
    decreases s.len(),
{
    let at = find_char(s, c);
    if 0 <= at < s.len() {
        seq![s.take(at)] + split_on(s.skip(at + 1), c)
    } else {
        seq![s]
    }
}

/// The pieces of two texts with a `c` between them.
pub proof fn lemma_split_concat(a: Seq<char>, b: Seq<char>, c: char)
    ensures
        split_on(a + seq![c] + b, c) == split_on(a, c) + split_on(b, c),
    decreases a.len(),
{
    let s = a + seq![c] + b;
    lemma_find_char(a, c);
    let at = find_char(a, c);
    assert(s[a.len() as int] == c);
    assert forall|i: int| 0 <= i < at implies s[i] != c by {
        assert(s[i] == a[i]);
    }
    if at < a.len() {
        assert(s[at] == a[at]);
    }
    lemma_find_char_is(s, c, at);
    assert(s.take(at) =~= a.take(at));
    if at < a.len() {
        let rest = a.skip(at + 1);
        lemma_split_concat(rest, b, c);
        assert(s.skip(at + 1) =~= rest + seq![c] + b);
        assert(seq![a.take(at)] + (split_on(rest, c) + split_on(b, c)) =~= (seq![a.take(at)]
            + split_on(rest, c)) + split_on(b, c));
    } else {
        assert(a.take(at) =~= a);
        assert(s.skip(at + 1) =~= b);
    }
}

/// A text without a `c` is one piece.
pub proof fn lemma_split_whole(s: Seq<char>, c: char)
    requires
        !s.contains(c),
    ensures
        split_on(s, c) == seq![s],
{
    lemma_find_char(s, c);
    let at = find_char(s, c);
    if at < s.len() {
        assert(s.contains(s[at]));
    }
}

/// No piece holds a `c`.
pub proof fn lemma_split_pieces(s: Seq<char>, c: char)
    ensures
        split_on(s, c).len() > 0,
        forall|i: int|
            0 <= i < split_on(s, c).len() ==> !(#[trigger] split_on(s, c)[i]).contains(c),
    decreases s.len(),
{
    lemma_find_char(s, c);
    let at = find_char(s, c);
    if at < s.len() {
        lemma_split_pieces(s.skip(at + 1), c);
        let rest = split_on(s.skip(at + 1), c);
        let pieces = split_on(s, c);
        assert forall|i: int| 0 <= i < pieces.len() implies !(#[trigger] pieces[i]).contains(c) by {
            if i > 0 {
                assert(pieces[i] == rest[i - 1]);
            }
        }
    }
}

/// A text trimmed holds no character that it did not hold before.
pub proof fn lemma_trim_keeps(s: Seq<char>, c: char)
    requires
        !s.contains(c),
    ensures
        !trim_of(s).contains(c),
{
    lemma_trim_start_keeps(s, c);
    lemma_trim_end_keeps(trim_start_of(s), c);
}

proof fn lemma_trim_start_keeps(s: Seq<char>, c: char)
    requires
        !s.contains(c),
    ensures
        !trim_start_of(s).contains(c),
    decreases s.len(),
{
    if s.len() > 0 && is_white(s[0]) {
        let rest = s.skip(1);
        assert forall|i: int| 0 <= i < rest.len() implies rest[i] != c by {
            assert(s.contains(s[i + 1]));
        }
        lemma_trim_start_keeps(rest, c);
    }
}

proof fn lemma_trim_end_keeps(s: Seq<char>, c: char)
    requires
        !s.contains(c),
    ensures
        !trim_end_of(s).contains(c),
    decreases s.len(),
{
    if s.len() > 0 && is_white(s.last()) {
        let rest = s.drop_last();
        assert forall|i: int| 0 <= i < rest.len() implies rest[i] != c by {
            assert(s.contains(s[i]));
        }
        lemma_trim_end_keeps(rest, c);
    }
}

/// A line without the carriage return that may end it.
pub open spec fn without_cr(s: Seq<char>) -> Seq<char> {
    if s.len() > 0 && s.last() == '\r' {
        s.drop_last()
    } else {
        s
    }
}

/// The lines of a text: a line feed ends a line, a carriage return just before it belongs to
/// the ending, and what follows the last line feed is a line of its own unless it is empty.
pub open spec fn lines_of(s: Seq<char>) -> Seq<Seq<char>>
    decreases s.len(),
{
    let at = find_char(s, '\n');
    if s.len() == 0 {
        Seq::empty()
    } else if 0 <= at < s.len() {
        seq![without_cr(s.take(at))] + lines_of(s.skip(at + 1))
    } else {
        seq![s]
    }
}

/// Whether a text is made of complete lines.
pub open spec fn ends_line(s: Seq<char>) -> bool {
    s.len() > 0 ==> s.last() == '\n'
}

/// A line with its line feed, and more text after it.
pub proof fn lemma_one_line(line: Seq<char>, rest: Seq<char>)
    requires
        !line.contains('\n'),
        line.len() > 0 ==> line.last() != '\r',
    ensures
        lines_of(line + seq!['\n'] + rest) == seq![line] + lines_of(rest),
{
    let s = line + seq!['\n'] + rest;
    assert forall|i: int| 0 <= i < line.len() implies s[i] != '\n' by {
        assert(s[i] == line[i]);
        assert(line.contains(line[i]));
    }
    assert(s[line.len() as int] == '\n');
    lemma_find_char_is(s, '\n', line.len() as int);
    assert(s.take(line.len() as int) =~= line);
    assert(s.skip(line.len() as int + 1) =~= rest);
}

/// The lines of complete lines and of more text after them.
pub proof fn lemma_lines_concat(a: Seq<char>, b: Seq<char>)
    requires
        ends_line(a),
    ensures
        lines_of(a + b) == lines_of(a) + lines_of(b),
    decreases a.len(),
{
    if a.len() == 0 {
        assert(a + b =~= b);
        assert(Seq::<Seq<char>>::empty() + lines_of(b) =~= lines_of(b));
    } else {
        lemma_find_char(a, '\n');
        let at = find_char(a, '\n');
        assert(at < a.len()) by {
            if at == a.len() {
                assert(a[a.len() - 1] == '\n');
            }
        }
        assert forall|i: int| 0 <= i < at implies (a + b)[i] != '\n' by {
            assert((a + b)[i] == a[i]);
        }
        lemma_find_char_is(a + b, '\n', at);
        let rest = a.skip(at + 1);
        assert(rest.len() > 0 ==> rest.last() == a.last());
        lemma_lines_concat(rest, b);
        assert((a + b).take(at) =~= a.take(at));
        assert((a + b).skip(at + 1) =~= rest + b);
        let first = seq![without_cr(a.take(at))];
        assert(first + (lines_of(rest) + lines_of(b)) =~= (first + lines_of(rest)) + lines_of(b));
    }
}

/// Whether `s` begins with `prefix`.
pub open spec fn begins_with(s: Seq<char>, prefix: Seq<char>) -> bool {
    prefix.len() <= s.len() && s.take(prefix.len() as int) == prefix
}

/// What follows `prefix` in `s`, if `s` begins with it.
pub open spec fn after_prefix(s: Seq<char>, prefix: Seq<char>) -> Option<Seq<char>> {
    if begins_with(s, prefix) {
        Some(s.skip(prefix.len() as int))
    } else {
        None
    }
}

/// Where `pattern` first occurs in `s`.
pub open spec fn find_of(s: Seq<char>, pattern: Seq<char>) -> Option<int>
    decreases s.len(),
{
    if begins_with(s, pattern) {
        Some(0)
    } else if s.len() == 0 {
        None
    } else {
        match find_of(s.skip(1), pattern) {
            Some(i) => Some(i + 1),
            None => None,
        }
    }
}

/// `s` with every occurrence of `pattern`, found from the left, replaced.
pub open spec fn replaced(s: Seq<char>, pattern: Seq<char>, with: Seq<char>) -> Seq<char>
    decreases s.len(),
{
    if s.len() == 0 || pattern.len() == 0 {
        s
    } else if begins_with(s, pattern) {
        with + replaced(s.skip(pattern.len() as int), pattern, with)
    } else {
        seq![s[0]] + replaced(s.skip(1), pattern, with)
    }
}

/// The pieces, with `sep` between each two.
pub open spec fn joined(parts: Seq<Seq<char>>, sep: Seq<char>) -> Seq<char>
    decreases parts.len(),
{
    if parts.len() == 0 {
        Seq::empty()
    } else if parts.len() == 1 {
        parts[0]
    } else {
        joined(parts.drop_last(), sep) + sep + parts.last()
    }
}

/// The first `n` characters of `s`, or all of it.
pub open spec fn first_chars_of(s: Seq<char>, n: nat) -> Seq<char> {
    if n <= s.len() {
        s.take(n as int)
    } else {
        s
    }
}

/// `c` with an upper-case ASCII letter made lower-case.
pub open spec fn ascii_lower(c: char) -> char {
    if 'A' <= c <= 'Z' {
        (c as u32 + 32) as char
    } else {
        c
    }
}

/// Whether two texts agree up to the case of ASCII letters.
pub open spec fn same_ignoring_case(a: Seq<char>, b: Seq<char>) -> bool {
    &&& a.len() == b.len()
    &&& forall|i: int| 0 <= i < a.len() ==> ascii_lower(#[trigger] a[i]) == ascii_lower(b[i])
}

/// The decimal digit `d`.
pub open spec fn digit_char(d: nat) -> char {
    (48 + d) as char
}

/// The decimal digits of a natural number.
pub open spec fn nat_text(n: nat) -> Seq<char>
    decreases n,
{
    if n < 10 {
        seq![digit_char(n)]
    } else {
        nat_text(n / 10).push(digit_char(n % 10))
    }
}

/// A whole number in decimal, with a minus sign where it is negative.
pub open spec fn int_text(i: int) -> Seq<char> {
    if i < 0 {
        seq!['-'] + nat_text((-i) as nat)
    } else {
        nat_text(i as nat)
    }
}

// ── facts about the models ──────────────────────────────────────────
pub proof fn lemma_find_char(s: Seq<char>, c: char)
    ensures
        0 <= find_char(s, c) <= s.len(),
        find_char(s, c) < s.len() ==> s[find_char(s, c)] == c,
        forall|i: int| 0 <= i < find_char(s, c) ==> s[i] != c,
    decreases s.len(),
{
    if s.len() != 0 && s[0] != c {
        let rest = s.skip(1);
        lemma_find_char(rest, c);
        assert forall|i: int| 0 <= i < find_char(s, c) implies s[i] != c by {
            if i > 0 {
                assert(s[i] == rest[i - 1]);
            }
        }
    }
}

/// The first occurrence is where `c` stands with none before it.
pub proof fn lemma_find_char_is(s: Seq<char>, c: char, at: int)
    requires
        0 <= at <= s.len(),
        forall|i: int| 0 <= i < at ==> s[i] != c,
        at < s.len() ==> s[at] == c,
    ensures
        find_char(s, c) == at,
{
    lemma_find_char(s, c);
    let f = find_char(s, c);
    if f < at {
        assert(s[f] == c);
    }
}

// ── conversions ─────────────────────────────────────────────────────
/// The characters of a text, one by one.
pub fn chars_of(text: &str) -> (r: Vec<char>)
    ensures
        r@ == text@,
{
    let mut out: Vec<char> = Vec::new();
    for c in it: text.chars()
        invariant
            out@ == it.seq().take(it.index()),
            it.seq() == text@,
    {
        out.push(c);
        assert(out@ =~= it.seq().take(it.index() + 1));
    }
    assert(out@ =~= text@);
    out
}

/// The text made of the characters `from..to` of `chars`.
pub fn string_of(chars: &Vec<char>, from: usize, to: usize) -> (r: String)
    requires
        from <= to <= chars@.len(),
    ensures
        r@ == chars@.subrange(from as int, to as int),
{
    let mut out = String::new();
    let mut i: usize = from;
    while i < to
        invariant
            from <= i <= to <= chars@.len(),
            out@ == chars@.subrange(from as int, i as int),
        decreases to - i,
    {
        out.push(chars[i]);
        i += 1;
        assert(out@ =~= chars@.subrange(from as int, i as int));
    }
    out
}

/// A line without the carriage return that may end it.
pub fn drop_cr(line: String) -> (r: String)
    ensures
        r@ == without_cr(line@),
{
    let chars = chars_of(line.as_str());
    if chars.len() > 0 && chars[chars.len() - 1] == '\r' {
        assert(without_cr(line@) =~= chars@.subrange(0, chars@.len() - 1));
        return string_of(&chars, 0, chars.len() - 1);
    }
    line
}

/// An optional text as an owned one.
pub fn owned(text: Option<&str>) -> (r: Option<String>)
    ensures
        opt_view(r) == opt_str_view(text),
{
    match text {
        Some(s) => Some(s.to_string()),
        None => None,
    }
}

// ── operations ──────────────────────────────────────────────────────
/// Whether two texts are equal.
pub fn same(a: &str, b: &str) -> (r: bool)
    ensures
        r == (a@ == b@),
{
    let x = chars_of(a);
    let y = chars_of(b);
    if x.len() != y.len() {
        return false;
    }
    let mut i: usize = 0;
    while i < x.len()
        invariant
            x@ == a@,
            y@ == b@,
            x@.len() == y@.len(),
            i <= x@.len(),
            forall|k: int| 0 <= k < i ==> x@[k] == y@[k],
        decreases x@.len() - i,
    {
        if x[i] != y[i] {
            assert(a@[i as int] != b@[i as int]);
            return false;
        }
        i += 1;
    }
    assert(a@ =~= b@);
    true
}

/// The Unicode `White_Space` property.
pub fn white(c: char) -> (r: bool)
    ensures
        r == is_white(c),
{
    let u: u32 = c as u32;
    (0x09 <= u && u <= 0x0D) || u == 0x20 || u == 0x85 || u == 0xA0 || u == 0x1680 || (0x2000 <= u
        && u <= 0x200A) || u == 0x2028 || u == 0x2029 || u == 0x202F || u == 0x205F || u == 0x3000
}

/// Where the text from `from` on begins with a character that is no white space.
fn skip_white(chars: &Vec<char>, from: usize) -> (r: usize)
    requires
        from <= chars@.len(),
    ensures
        from <= r <= chars@.len(),
        trim_start_of(chars@.skip(from as int)) == chars@.skip(r as int),
{
    let mut i: usize = from;
    while i < chars.len() && white(chars[i])
        invariant
            from <= i <= chars@.len(),
            trim_start_of(chars@.skip(from as int)) == trim_start_of(chars@.skip(i as int)),
        decreases chars@.len() - i,
    {
        assert(chars@.skip(i as int).skip(1) =~= chars@.skip(i + 1));
        i += 1;
    }
    i
}

/// A text without its leading white space.
pub fn trim_start(text: &str) -> (r: String)
    ensures
        r@ == trim_start_of(text@),
{
    let chars = chars_of(text);
    assert(chars@.skip(0) =~= chars@);
    let from = skip_white(&chars, 0);
    assert(chars@.skip(from as int) =~= chars@.subrange(from as int, chars@.len() as int));
    string_of(&chars, from, chars.len())
}

/// A text without white space at either end.
pub fn trim(text: &str) -> (r: String)
    ensures
        r@ == trim_of(text@),
{
    let chars = chars_of(text);
    assert(chars@.skip(0) =~= chars@);
    let from = skip_white(&chars, 0);
    let mut to: usize = chars.len();
    assert(chars@.skip(from as int) =~= chars@.subrange(from as int, to as int));
    while to > from && white(chars[to - 1])
        invariant
            from <= to <= chars@.len(),
            trim_of(text@) == trim_end_of(chars@.subrange(from as int, to as int)),
        decreases to - from,
    {
        let ghost s = chars@.subrange(from as int, to as int);
        assert(s.last() == chars@[to - 1]);
        assert(s.drop_last() =~= chars@.subrange(from as int, to - 1));
        to -= 1;
    }
    assert(to > from ==> chars@.subrange(from as int, to as int).last() == chars@[to - 1]);
    string_of(&chars, from, to)
}

/// Where `c` first occurs from `from` on, or the end.
fn find_from(chars: &Vec<char>, from: usize, c: char) -> (r: usize)
    requires
        from <= chars@.len(),
    ensures
        from <= r <= chars@.len(),
        r - from == find_char(chars@.skip(from as int), c),
{
    let mut i: usize = from;
    while i < chars.len() && chars[i] != c
        invariant
            from <= i <= chars@.len(),
            forall|k: int| from <= k < i ==> chars@[k] != c,
        decreases chars@.len() - i,
    {
        i += 1;
    }
    proof {
        lemma_find_char_is(chars@.skip(from as int), c, i - from);
    }
    i
}

/// Whether `c` occurs in the text.
pub fn has_char(text: &str, c: char) -> (r: bool)
    ensures
        r == text@.contains(c),
{
    let chars = chars_of(text);
    assert(chars@.skip(0) =~= chars@);
    let at = find_from(&chars, 0, c);
    proof {
        lemma_find_char(text@, c);
        if at < chars@.len() {
            assert(text@[at as int] == c);
        }
    }
    at < chars.len()
}

/// What stands before and after the first `c`, if there is one.
pub fn split_once(text: &str, c: char) -> (r: Option<(String, String)>)
    ensures
        match r {
            Some(p) => split_once_of(text@, c) == Some((p.0@, p.1@)),
            None => split_once_of(text@, c) is None,
        },
{
    let chars = chars_of(text);
    assert(chars@.skip(0) =~= chars@);
    let at = find_from(&chars, 0, c);
    if at < chars.len() {
        assert(text@.take(at as int) =~= chars@.subrange(0, at as int));
        assert(text@.skip(at + 1) =~= chars@.subrange(at + 1, chars@.len() as int));
        Some((string_of(&chars, 0, at), string_of(&chars, at + 1, chars.len())))
    } else {
        None
    }
}

/// The pieces of the text between the occurrences of `c`.
pub fn split(text: &str, c: char) -> (r: Vec<String>)
    ensures
        views(r@) == split_on(text@, c),
        r@.len() > 0,
{
    let chars = chars_of(text);
    let mut out: Vec<String> = Vec::new();
    let mut from: usize = 0;
    assert(chars@.skip(0) =~= chars@);
    assert(views(out@) + split_on(text@, c) =~= split_on(text@, c));
    loop
        invariant_except_break
            from <= chars@.len(),
            split_on(text@, c) == views(out@) + split_on(chars@.skip(from as int), c),
        ensures
            views(out@) == split_on(text@, c),
            out@.len() > 0,
        decreases chars@.len() - from,
    {
        let at = find_from(&chars, from, c);
        let ghost rest = chars@.skip(from as int);
        let ghost before = views(out@);
        out.push(string_of(&chars, from, at));
        assert(rest.take(at - from) =~= chars@.subrange(from as int, at as int));
        assert(views(out@) =~= before + seq![rest.take(at - from)]);
        if at < chars.len() {
            assert(rest.skip(at - from + 1) =~= chars@.skip(at + 1));
            assert(before + (seq![rest.take(at - from)] + split_on(chars@.skip(at + 1), c))
                =~= views(out@) + split_on(chars@.skip(at + 1), c));
            from = at + 1;
        } else {
            assert(rest.take(at - from) =~= rest);
            break;
        }
    }
    out
}

/// The lines of the text, without their endings.
pub fn lines(text: &str) -> (r: Vec<String>)
    ensures
        views(r@) == lines_of(text@),
{
    let chars = chars_of(text);
    let mut out: Vec<String> = Vec::new();
    let mut from: usize = 0;
    assert(chars@.skip(0) =~= chars@);
    assert(views(out@) + lines_of(text@) =~= lines_of(text@));
    while from < chars.len()
        invariant
            from <= chars@.len(),
            lines_of(text@) == views(out@) + lines_of(chars@.skip(from as int)),
        decreases chars@.len() - from,
    {
        let at = find_from(&chars, from, '\n');
        let ghost rest = chars@.skip(from as int);
        let ghost before = views(out@);
        assert(rest.take(at - from) =~= chars@.subrange(from as int, at as int));
        if at < chars.len() {
            let end = if at > from && chars[at - 1] == '\r' {
                at - 1
            } else {
                at
            };
            out.push(string_of(&chars, from, end));
            assert(without_cr(rest.take(at - from)) =~= chars@.subrange(from as int, end as int));
            assert(views(out@) =~= before + seq![without_cr(rest.take(at - from))]);
            assert(rest.skip(at - from + 1) =~= chars@.skip(at + 1));
            assert(before + (seq![without_cr(rest.take(at - from))] + lines_of(chars@.skip(at + 1)))
                =~= views(out@) + lines_of(chars@.skip(at + 1)));
            from = at + 1;
        } else {
            out.push(string_of(&chars, from, at));
            assert(rest.take(at - from) =~= rest);
            assert(views(out@) =~= before + seq![rest]);
            assert(chars@.skip(at as int).len() == 0);
            assert(before + seq![rest] =~= views(out@) + lines_of(chars@.skip(at as int)));
            from = at;
        }
    }
    assert(views(out@) + lines_of(chars@.skip(from as int)) =~= views(out@));
    out
}

/// Whether `pattern` stands in `chars` at `at`.
pub fn stands_at(chars: &Vec<char>, at: usize, pattern: &Vec<char>) -> (r: bool)
    requires
        at <= chars@.len(),
    ensures
        r == begins_with(chars@.skip(at as int), pattern@),
{
    let ghost rest = chars@.skip(at as int);
    if pattern.len() > chars.len() - at {
        return false;
    }
    let mut i: usize = 0;
    while i < pattern.len()
        invariant
            at <= chars@.len(),
            rest == chars@.skip(at as int),
            pattern@.len() <= chars.len() - at,
            i <= pattern@.len(),
            forall|k: int| 0 <= k < i ==> rest[k] == pattern@[k],
        decreases pattern@.len() - i,
    {
        if chars[at + i] != pattern[i] {
            assert(rest.take(pattern@.len() as int)[i as int] != pattern@[i as int]);
            return false;
        }
        i += 1;
    }
    assert(rest.take(pattern@.len() as int) =~= pattern@);
    true
}

/// What follows `prefix`, if the text begins with it.
pub fn strip(text: &str, prefix: &str) -> (r: Option<String>)
    ensures
        opt_view(r) == after_prefix(text@, prefix@),
{
    let chars = chars_of(text);
    let pattern = chars_of(prefix);
    assert(chars@.skip(0) =~= chars@);
    if stands_at(&chars, 0, &pattern) {
        assert(text@.skip(prefix@.len() as int) =~= chars@.subrange(
            pattern@.len() as int,
            chars@.len() as int,
        ));
        Some(string_of(&chars, pattern.len(), chars.len()))
    } else {
        None
    }
}

/// A text from the character at `at` on.
pub fn from_char(text: &str, at: usize) -> (r: String)
    requires
        at <= text@.len(),
    ensures
        r@ == text@.skip(at as int),
{
    let chars = chars_of(text);
    assert(text@.skip(at as int) =~= chars@.subrange(at as int, chars@.len() as int));
    string_of(&chars, at, chars.len())
}

/// Where `pattern` first occurs in the text, counted in characters.
pub fn find(text: &str, pattern: &str) -> (r: Option<usize>)
    ensures
        match r {
            Some(i) => find_of(text@, pattern@) == Some(i as int) && i + pattern@.len()
                <= text@.len() <= usize::MAX,
            None => find_of(text@, pattern@) is None,
        },
{
    let chars = chars_of(text);
    let wanted = chars_of(pattern);
    let mut i: usize = 0;
    assert(chars@.skip(0) =~= chars@);
    loop
        invariant
            chars@ == text@,
            wanted@ == pattern@,
            i <= chars.len(),
            match find_of(chars@.skip(i as int), pattern@) {
                Some(k) => find_of(text@, pattern@) == Some(k + i),
                None => find_of(text@, pattern@) is None,
            },
        decreases chars@.len() - i,
    {
        if stands_at(&chars, i, &wanted) {
            return Some(i);
        }
        if i == chars.len() {
            return None;
        }
        assert(chars@.skip(i as int).skip(1) =~= chars@.skip(i + 1));
        i += 1;
    }
}

/// The text with every occurrence of a nonempty `pattern` replaced.
pub fn replace(text: &str, pattern: &str, with: &str) -> (r: String)
    requires
        pattern@.len() > 0,
    ensures
        r@ == replaced(text@, pattern@, with@),
{
    let chars = chars_of(text);
    let wanted = chars_of(pattern);
    let mut out = String::new();
    let mut i: usize = 0;
    assert(chars@.skip(0) =~= chars@);
    assert(out@ + replaced(text@, pattern@, with@) =~= replaced(text@, pattern@, with@));
    while i < chars.len()
        invariant
            chars@ == text@,
            wanted@ == pattern@,
            pattern@.len() > 0,
            i <= chars@.len(),
            replaced(text@, pattern@, with@) == out@ + replaced(
                chars@.skip(i as int),
                pattern@,
                with@,
            ),
        decreases chars@.len() - i,
    {
        let ghost rest = chars@.skip(i as int);
        let ghost before = out@;
        if stands_at(&chars, i, &wanted) {
            out.append(with);
            assert(rest.skip(pattern@.len() as int) =~= chars@.skip(i + pattern@.len()));
            assert(before + (with@ + replaced(chars@.skip(i + pattern@.len()), pattern@, with@))
                =~= out@ + replaced(chars@.skip(i + pattern@.len()), pattern@, with@));
            i += wanted.len();
        } else {
            out.push(chars[i]);
            assert(rest.skip(1) =~= chars@.skip(i + 1));
            assert(before + (seq![rest[0]] + replaced(chars@.skip(i + 1), pattern@, with@)) =~= out@
                + replaced(chars@.skip(i + 1), pattern@, with@));
            i += 1;
        }
    }
    assert(chars@.skip(i as int) =~= Seq::<char>::empty());
    assert(out@ + Seq::<char>::empty() =~= out@);
    out
}

/// The pieces, with `sep` between each two.
pub fn join(parts: &Vec<String>, sep: &str) -> (r: String)
    ensures
        r@ == joined(views(parts@), sep@),
{
    let mut out = String::new();
    let mut i: usize = 0;
    while i < parts.len()
        invariant
            i <= parts@.len(),
            out@ == joined(views(parts@).take(i as int), sep@),
        decreases parts@.len() - i,
    {
        let ghost head = views(parts@).take(i + 1);
        assert(head.drop_last() =~= views(parts@).take(i as int));
        if i > 0 {
            out.append(sep);
        }
        out.append(parts[i].as_str());
        if i == 0 {
            assert(out@ =~= parts@[0]@);
        }
        i += 1;
    }
    assert(views(parts@).take(i as int) =~= views(parts@));
    out
}

/// The first `n` characters of the text, or all of it.
pub fn first_chars(text: &str, n: usize) -> (r: String)
    ensures
        r@ == first_chars_of(text@, n as nat),
{
    let chars = chars_of(text);
    let to = if n <= chars.len() {
        n
    } else {
        chars.len()
    };
    assert(first_chars_of(text@, n as nat) =~= chars@.subrange(0, to as int));
    string_of(&chars, 0, to)
}

/// `c` with an upper-case ASCII letter made lower-case.
fn lower(c: char) -> (r: char)
    ensures
        r == ascii_lower(c),
{
    if 'A' <= c && c <= 'Z' {
        ((c as u8) + 32) as char
    } else {
        c
    }
}

/// Whether two texts agree up to the case of ASCII letters.
pub fn eq_ignore_case(a: &str, b: &str) -> (r: bool)
    ensures
        r == same_ignoring_case(a@, b@),
{
    let x = chars_of(a);
    let y = chars_of(b);
    if x.len() != y.len() {
        return false;
    }
    let mut i: usize = 0;
    while i < x.len()
        invariant
            x@ == a@,
            y@ == b@,
            x@.len() == y@.len(),
            i <= x@.len(),
            forall|k: int| 0 <= k < i ==> ascii_lower(#[trigger] x@[k]) == ascii_lower(y@[k]),
        decreases x@.len() - i,
    {
        if lower(x[i]) != lower(y[i]) {
            assert(ascii_lower(a@[i as int]) != ascii_lower(b@[i as int]));
            return false;
        }
        i += 1;
    }
    true
}

/// The digits of `n` in decimal.
pub fn u64_text(n: u64) -> (r: String)
    ensures
        r@ == int_text(n as int),
        r@ == nat_text(n as nat),
    decreases n,
{
    let last: u8 = (n % 10) as u8;
    let c: char = (48 + last) as char;
    assert(c == digit_char((n % 10) as nat));
    if n < 10 {
        let mut out = String::new();
        out.push(c);
        assert(out@ =~= nat_text(n as nat));
        out
    } else {
        let mut out = u64_text(n / 10);
        out.push(c);
        out
    }
}

/// `i` in decimal, with a minus sign where it is negative.
pub fn i64_text(i: i64) -> (r: String)
    ensures
        r@ == int_text(i as int),
{
    if i >= 0 {
        u64_text(i as u64)
    } else {
        let mut out = "-".to_string();
        let magnitude: u64 = (-(i as i128)) as u64;
        out.append(u64_text(magnitude).as_str());
        proof {
            reveal_strlit("-");
        }
        assert("-"@ =~= seq!['-']);
        out
    }
}

/// Two texts, one after the other.
pub fn cat2(a: &str, b: &str) -> (r: String)
    ensures
        r@ == a@ + b@,
{
    let mut out = a.to_string();
    out.append(b);
    out
}

/// Three texts, one after the other.
pub fn cat3(a: &str, b: &str, c: &str) -> (r: String)
    ensures
        r@ == a@ + b@ + c@,
{
    let mut out = a.to_string();
    out.append(b);
    out.append(c);
    out
}

/// Four texts, one after the other.
pub fn cat4(a: &str, b: &str, c: &str, d: &str) -> (r: String)
    ensures
        r@ == a@ + b@ + c@ + d@,
{
    let mut out = a.to_string();
    out.append(b);
    out.append(c);
    out.append(d);
    out
}

/// Five texts, one after the other.
pub fn cat5(a: &str, b: &str, c: &str, d: &str, e: &str) -> (r: String)
    ensures
        r@ == a@ + b@ + c@ + d@ + e@,
{
    let mut out = a.to_string();
    out.append(b);
    out.append(c);
    out.append(d);
    out.append(e);
    out
}

/// Seven texts, one after the other.
pub fn cat7(a: &str, b: &str, c: &str, d: &str, e: &str, f: &str, g: &str) -> (r: String)
    ensures
        r@ == a@ + b@ + c@ + d@ + e@ + f@ + g@,
{
    let mut out = a.to_string();
    out.append(b);
    out.append(c);
    out.append(d);
    out.append(e);
    out.append(f);
    out.append(g);
    out
}

/// Replacing changes every occurrence and nothing else: what stands before the first occurrence stays,
/// and a text without one stays as it is.
pub proof fn only_occurrences_are_replaced(s: Seq<char>, pattern: Seq<char>, with: Seq<char>)
    requires
        pattern.len() > 0,
    ensures
        match find_of(s, pattern) {
            Some(i) => 0 <= i && i + pattern.len() <= s.len() && replaced(s, pattern, with) == s.take(i)
                + with + replaced(s.skip(i + pattern.len()), pattern, with),
            None => replaced(s, pattern, with) == s,
        },
    decreases s.len(),
{
    if begins_with(s, pattern) {
        assert(s.take(0) + with =~= with);
    } else if s.len() > 0 {
        let rest = s.skip(1);
        only_occurrences_are_replaced(rest, pattern, with);
        match find_of(rest, pattern) {
            Some(j) => {
                let n = pattern.len() as int;
                assert(rest.skip(j + n) =~= s.skip(j + 1 + n));
                assert(seq![s[0]] + rest.take(j) =~= s.take(j + 1));
                assert(replaced(s, pattern, with) =~= s.take(j + 1) + with + replaced(
                    s.skip(j + 1 + n),
                    pattern,
                    with,
                ));
            },
            None => {
                assert(seq![s[0]] + rest =~= s);
            },
        }
    }
}

/// Trimming takes the white space around a text away, and nothing else.
pub proof fn trimming_takes_only_what_surrounds(before: Seq<char>, s: Seq<char>, after: Seq<char>)
    requires
        is_trimmed(s),
        forall|i: int| 0 <= i < before.len() ==> is_white(#[trigger] before[i]),
        forall|i: int| 0 <= i < after.len() ==> is_white(#[trigger] after[i]),
    ensures
        trim_of(before + s + after) == s,
    decreases before.len() + after.len(),
{
    let whole = before + s + after;
    if before.len() > 0 {
        assert(whole[0] == before[0]);
        assert(whole.skip(1) =~= before.skip(1) + s + after);
        trimming_takes_only_what_surrounds(before.skip(1), s, after);
    } else if s.len() == 0 {
        if after.len() > 0 {
            assert(whole[0] == after[0]);
            assert(whole.skip(1) =~= before + s + after.skip(1));
            trimming_takes_only_what_surrounds(before, s, after.skip(1));
        } else {
            assert(whole =~= s);
            lemma_trim(s);
        }
    } else {
        assert(whole[0] == s[0]);
        if after.len() > 0 {
            assert(whole.last() == after.last());
            assert(whole.drop_last() =~= before + s + after.drop_last());
            trimming_takes_only_what_surrounds(before, s, after.drop_last());
            assert(whole.drop_last()[0] == s[0]);
        } else {
            assert(whole =~= s);
            lemma_trim(s);
        }
    }
}

/// The number that decimal digits stand for.
pub open spec fn value_of_digits(digits: Seq<char>) -> int
    decreases digits.len(),
{
    if digits.len() == 0 {
        0
    } else {
        10 * value_of_digits(digits.drop_last()) + (digits.last() as int - '0' as int)
    }
}

/// The decimal digits of a number stand for that number, and its sign is told.
pub proof fn digits_stand_for_their_number(n: nat)
    ensures
        value_of_digits(nat_text(n)) == n,
        nat_text(n).len() > 0,
        forall|i: int| 0 <= i < nat_text(n).len() ==> '0' <= #[trigger] nat_text(n)[i] <= '9',
        n > 0 ==> int_text(-n) == seq!['-'] + int_text(n as int),
    decreases n,
{
    reveal_with_fuel(value_of_digits, 2);
    if n < 10 {
        assert(nat_text(n).drop_last() =~= Seq::empty());
    } else {
        digits_stand_for_their_number(n / 10);
        let front = nat_text(n / 10);
        assert(nat_text(n).drop_last() =~= front);
        assert forall|i: int| 0 <= i < nat_text(n).len() implies '0' <= #[trigger] nat_text(n)[i]
            <= '9' by {
            if i < front.len() {
                assert(nat_text(n)[i] == front[i]);
            }
        }
    }
}

} // verus!
