//! Cookie headers: reading them, merging `Set-Cookie` headers into them, and keeping them legal.

use crate::text;
use vstd::prelude::*;

verus! {

// ── models ──────────────────────────────────────────────────────────
/// Names with their values, in the order in which the names first came up.
pub type Jar = Seq<(Seq<char>, Seq<char>)>;

/// Where a name stands in a jar, or the jar's length.
pub open spec fn jar_find(jar: Jar, name: Seq<char>) -> int
    decreases jar.len(),
{
    if jar.len() == 0 || jar[0].0 == name {
        0
    } else {
        1 + jar_find(jar.skip(1), name)
    }
}

/// The value of a name.
pub open spec fn jar_get(jar: Jar, name: Seq<char>) -> Option<Seq<char>> {
    if jar_find(jar, name) < jar.len() {
        Some(jar[jar_find(jar, name)].1)
    } else {
        None
    }
}

/// The jar with a name's value set.
pub open spec fn jar_put(jar: Jar, name: Seq<char>, value: Seq<char>) -> Jar {
    if jar_find(jar, name) < jar.len() {
        jar.update(jar_find(jar, name), (name, value))
    } else {
        jar.push((name, value))
    }
}

/// The jar without a name.
pub open spec fn jar_remove(jar: Jar, name: Seq<char>) -> Jar {
    if jar_find(jar, name) < jar.len() {
        jar.remove(jar_find(jar, name))
    } else {
        jar
    }
}

/// No name comes twice.
pub open spec fn jar_distinct(jar: Jar) -> bool {
    forall|i: int, j: int| 0 <= i < j < jar.len() ==> #[trigger] jar[i].0 != #[trigger] jar[j].0
}

/// The jar with one part of a `Cookie` header read into it: `name=value`, white space around it
/// dropped. A part without `=` says nothing.
pub open spec fn with_part(jar: Jar, part: Seq<char>) -> Jar {
    match text::split_once_of(text::trim_of(part), '=') {
        Some(p) => jar_put(jar, p.0, p.1),
        None => jar,
    }
}

/// The cookies that the parts of a `Cookie` header describe, a later value of a name standing
/// for an earlier one.
pub open spec fn jar_of_parts(parts: Seq<Seq<char>>) -> Jar
    decreases parts.len(),
{
    if parts.len() == 0 {
        Seq::empty()
    } else {
        with_part(jar_of_parts(parts.drop_last()), parts.last())
    }
}

/// The cookies that a `Cookie` header describes.
pub open spec fn jar_of(header: Seq<char>) -> Jar {
    jar_of_parts(text::split_on(header, ';'))
}

/// `name=value`.
pub open spec fn pair_text(pair: (Seq<char>, Seq<char>)) -> Seq<char> {
    pair.0 + "="@ + pair.1
}

/// The `Cookie` header of a jar.
pub open spec fn jar_text(jar: Jar) -> Seq<char> {
    text::joined(Seq::new(jar.len(), |i: int| pair_text(jar[i])), "; "@)
}

/// Whether a character may stand in an HTTP header value: visible ASCII, space or tab.
pub open spec fn header_char(c: char) -> bool {
    0x20 <= c as u32 <= 0x7E || c == '\t'
}

/// The characters that may stand in an HTTP header value.
pub open spec fn header_chars(s: Seq<char>) -> Seq<char>
    decreases s.len(),
{
    if s.len() == 0 {
        s
    } else if header_char(s.last()) {
        header_chars(s.drop_last()).push(s.last())
    } else {
        header_chars(s.drop_last())
    }
}

/// The name and value that a `Set-Cookie` header sets, cleaned of what may not stand in a header.
pub open spec fn set_cookie_pair(raw: Seq<char>) -> Option<(Seq<char>, Seq<char>)> {
    match text::split_once_of(text::trim_of(text::split_on(raw, ';')[0]), '=') {
        Some(p) => Some((header_chars(text::trim_of(p.0)), header_chars(text::trim_of(p.1)))),
        None => None,
    }
}

/// Whether a value marks a cookie as deleted.
pub open spec fn deletes(value: Seq<char>) -> bool {
    value.len() == 0 || text::same_ignoring_case(value, "deleted"@)
}

/// The jar after a `Set-Cookie` header.
pub open spec fn with_set_cookie(jar: Jar, raw: Seq<char>) -> Jar {
    match set_cookie_pair(raw) {
        Some(p) => if p.0.len() == 0 {
            jar
        } else if deletes(p.1) {
            jar_remove(jar, p.0)
        } else {
            jar_put(jar, p.0, p.1)
        },
        None => jar,
    }
}

/// The jar after `Set-Cookie` headers, in their order.
pub open spec fn with_set_cookies(jar: Jar, raws: Seq<Seq<char>>) -> Jar
    decreases raws.len(),
{
    if raws.len() == 0 {
        jar
    } else {
        with_set_cookie(with_set_cookies(jar, raws.drop_last()), raws.last())
    }
}

/// The `Cookie` header after `Set-Cookie` headers.
pub open spec fn merged_header(header: Seq<char>, raws: Seq<Seq<char>>) -> Seq<char> {
    jar_text(with_set_cookies(jar_of(header), raws))
}

/// A `Cookie` header that can be sent, or none where nothing legal is left of it.
pub open spec fn sendable_cookie(cookie: Seq<char>) -> Option<Seq<char>> {
    if text::trim_of(header_chars(cookie)).len() == 0 {
        None
    } else {
        Some(header_chars(cookie))
    }
}

// ── jars ────────────────────────────────────────────────────────────
/// Cookie names with their values.
#[derive(Debug)]
pub struct CookieMap {
    entries: Vec<(String, String)>,
}

impl View for CookieMap {
    type V = Jar;

    closed spec fn view(&self) -> Jar {
        Seq::new(self.entries@.len(), |i: int| (self.entries@[i].0@, self.entries@[i].1@))
    }
}

pub proof fn lemma_jar_find(jar: Jar, name: Seq<char>)
    ensures
        0 <= jar_find(jar, name) <= jar.len(),
        jar_find(jar, name) < jar.len() ==> jar[jar_find(jar, name)].0 == name,
        forall|i: int| 0 <= i < jar_find(jar, name) ==> (#[trigger] jar[i]).0 != name,
    decreases jar.len(),
{
    if jar.len() != 0 && jar[0].0 != name {
        let rest = jar.skip(1);
        lemma_jar_find(rest, name);
        assert forall|i: int| 0 <= i < jar_find(jar, name) implies (#[trigger] jar[i]).0 != name by {
            if i > 0 {
                assert(jar[i] == rest[i - 1]);
            }
        }
    }
}

pub proof fn lemma_jar_find_is(jar: Jar, name: Seq<char>, at: int)
    requires
        0 <= at <= jar.len(),
        forall|i: int| 0 <= i < at ==> (#[trigger] jar[i]).0 != name,
        at < jar.len() ==> jar[at].0 == name,
    ensures
        jar_find(jar, name) == at,
{
    lemma_jar_find(jar, name);
    let f = jar_find(jar, name);
    if f < at {
        assert(jar[f].0 == name);
    }
}

impl CookieMap {
    /// No cookies.
    pub fn new() -> (r: CookieMap)
        ensures
            r@ == Seq::<(Seq<char>, Seq<char>)>::empty(),
    {
        let r = CookieMap { entries: Vec::new() };
        assert(r@ =~= Seq::<(Seq<char>, Seq<char>)>::empty());
        r
    }

    fn find(&self, name: &str) -> (r: usize)
        ensures
            r == jar_find(self@, name@),
            r <= self.entries@.len(),
    {
        let mut i: usize = 0;
        while i < self.entries.len()
            invariant
                i <= self.entries@.len(),
                forall|k: int| 0 <= k < i ==> (#[trigger] self@[k]).0 != name@,
            decreases self.entries@.len() - i,
        {
            if text::same(self.entries[i].0.as_str(), name) {
                proof {
                    lemma_jar_find_is(self@, name@, i as int);
                }
                return i;
            }
            i += 1;
        }
        proof {
            lemma_jar_find_is(self@, name@, i as int);
        }
        i
    }

    /// The value of a cookie.
    pub fn get(&self, name: &str) -> (r: Option<String>)
        ensures
            text::opt_view(r) == jar_get(self@, name@),
    {
        let at = self.find(name);
        if at < self.entries.len() {
            Some(self.entries[at].1.clone())
        } else {
            None
        }
    }

    /// Sets a cookie.
    pub fn insert(&mut self, name: String, value: String)
        ensures
            final(self)@ == jar_put(old(self)@, name@, value@),
    {
        let ghost before = self@;
        let ghost n = name@;
        let ghost v = value@;
        let at = self.find(name.as_str());
        if at < self.entries.len() {
            self.entries.set(at, (name, value));
            assert(self@ =~= before.update(at as int, (n, v)));
        } else {
            self.entries.push((name, value));
            assert(self@ =~= before.push((n, v)));
        }
    }

    /// Drops a cookie.
    pub fn remove(&mut self, name: &str)
        ensures
            final(self)@ == jar_remove(old(self)@, name@),
    {
        let ghost before = self@;
        let at = self.find(name);
        if at < self.entries.len() {
            let _ = self.entries.remove(at);
            assert(self@ =~= before.remove(at as int));
        }
    }

    /// The `Cookie` header of the cookies.
    pub fn header(&self) -> (r: String)
        ensures
            r@ == jar_text(self@),
    {
        let mut parts: Vec<String> = Vec::new();
        let mut i: usize = 0;
        while i < self.entries.len()
            invariant
                i <= self.entries@.len(),
                parts@.len() == i,
                forall|k: int| 0 <= k < i ==> (#[trigger] parts@[k])@ == pair_text(self@[k]),
            decreases self.entries@.len() - i,
        {
            parts.push(text::cat3(self.entries[i].0.as_str(), "=", self.entries[i].1.as_str()));
            i += 1;
        }
        assert(text::views(parts@) =~= Seq::new(self@.len(), |k: int| pair_text(self@[k])));
        text::join(&parts, "; ")
    }
}

// ── headers ─────────────────────────────────────────────────────────
/// Parse `a=1; b=2` into a map.
pub fn parse_cookie_header(header: &str) -> (r: CookieMap)
    ensures
        r@ == jar_of(header@),
{
    let parts = text::split(header, ';');
    let mut map = CookieMap::new();
    let mut i: usize = 0;
    while i < parts.len()
        invariant
            i <= parts@.len(),
            text::views(parts@) == text::split_on(header@, ';'),
            map@ == jar_of_parts(text::views(parts@).take(i as int)),
        decreases parts@.len() - i,
    {
        assert(text::views(parts@).take(i + 1).drop_last() =~= text::views(parts@).take(i as int));
        assert(text::views(parts@).take(i + 1).last() == parts@[i as int]@);
        let part = text::trim(parts[i].as_str());
        if let Some((k, v)) = text::split_once(part.as_str(), '=') {
            map.insert(k, v);
        }
        i += 1;
    }
    assert(text::views(parts@).take(i as int) =~= text::views(parts@));
    map
}

/// Keep only bytes that are legal in an HTTP header value (visible ASCII + tab).
pub fn sanitize_header_text(s: &str) -> (r: String)
    ensures
        r@ == header_chars(s@),
{
    let chars = text::chars_of(s);
    let mut out = String::new();
    let mut i: usize = 0;
    while i < chars.len()
        invariant
            i <= chars@.len(),
            chars@ == s@,
            out@ == header_chars(s@.take(i as int)),
        decreases chars@.len() - i,
    {
        let c = chars[i];
        assert(s@.take(i + 1).drop_last() =~= s@.take(i as int));
        let u: u32 = c as u32;
        if (0x20 <= u && u <= 0x7E) || c == '\t' {
            out.push(c);
        }
        i += 1;
    }
    assert(s@.take(i as int) =~= s@);
    out
}

/// Merge Set-Cookie headers into an existing Cookie header string.
/// Values are sanitized: an identity server sometimes sets cookies with characters that may not
/// stand in a header.
pub fn merge_set_cookie(cookie_header: &str, set_cookies: &Vec<String>) -> (r: String)
    ensures
        r@ == merged_header(cookie_header@, text::views(set_cookies@)),
{
    let mut map = parse_cookie_header(cookie_header);
    let mut i: usize = 0;
    while i < set_cookies.len()
        invariant
            i <= set_cookies@.len(),
            map@ == with_set_cookies(
                jar_of(cookie_header@),
                text::views(set_cookies@).take(i as int),
            ),
        decreases set_cookies@.len() - i,
    {
        let ghost raws = text::views(set_cookies@);
        assert(raws.take(i + 1).drop_last() =~= raws.take(i as int));
        assert(raws.take(i + 1).last() == set_cookies@[i as int]@);
        let parts = text::split(set_cookies[i].as_str(), ';');
        assert(text::views(parts@)[0] == parts@[0]@);
        let head = text::trim(parts[0].as_str());
        if let Some((k, v)) = text::split_once(head.as_str(), '=') {
            let name = sanitize_header_text(text::trim(k.as_str()).as_str());
            let value = sanitize_header_text(text::trim(v.as_str()).as_str());
            if !name.as_str().is_empty() {
                // Skip deleted cookies
                if value.as_str().is_empty() || text::eq_ignore_case(value.as_str(), "deleted") {
                    map.remove(name.as_str());
                } else {
                    map.insert(name, value);
                }
            }
        }
        i += 1;
    }
    assert(text::views(set_cookies@).take(i as int) =~= text::views(set_cookies@));
    map.header()
}

/// Build a Cookie header that is guaranteed to be a valid header value.
pub fn safe_cookie_header(cookie: &str) -> (r: Option<String>)
    ensures
        text::opt_view(r) == sendable_cookie(cookie@),
        r matches Some(s) ==> forall|i: int|
            0 <= i < s@.len() ==> header_char(#[trigger] s@[i]),
{
    let s = sanitize_header_text(cookie);
    proof {
        lemma_header_chars_legal(cookie@);
    }
    if text::trim(s.as_str()).as_str().is_empty() {
        return None;
    }
    Some(s)
}

/// What is kept may stand in a header.
pub proof fn lemma_header_chars_legal(s: Seq<char>)
    ensures
        forall|i: int| 0 <= i < header_chars(s).len() ==> header_char(#[trigger] header_chars(s)[i]),
    decreases s.len(),
{
    if s.len() > 0 {
        let head = header_chars(s.drop_last());
        lemma_header_chars_legal(s.drop_last());
        assert forall|i: int| 0 <= i < header_chars(s).len() implies header_char(
            #[trigger] header_chars(s)[i],
        ) by {
            if i < head.len() {
                assert(header_char(head[i]));
            }
        }
    }
}

// ── laws ────────────────────────────────────────────────────────────
/// Whether a name and its value can be read back from a header.
pub open spec fn is_readable(pair: (Seq<char>, Seq<char>)) -> bool {
    &&& !pair.0.contains('=')
    &&& !pair.0.contains(';')
    &&& !pair.1.contains(';')
    &&& text::is_trimmed(pair_text(pair))
}

/// Whether all cookies of a jar can be read back from a header.
pub open spec fn readable(jar: Jar) -> bool {
    &&& jar_distinct(jar)
    &&& forall|i: int| 0 <= i < jar.len() ==> is_readable(#[trigger] jar[i])
}

proof fn lemma_read_part(jar: Jar, pair: (Seq<char>, Seq<char>), space: bool)
    requires
        is_readable(pair),
    ensures
        with_part(
            jar,
            if space {
                seq![' '] + pair_text(pair)
            } else {
                pair_text(pair)
            },
        ) == jar_put(jar, pair.0, pair.1),
        !pair_text(pair).contains(';'),
{
    reveal_strlit("=");
    let text = pair_text(pair);
    text::lemma_trim(text);
    let padded = seq![' '] + text;
    assert(padded.skip(1) =~= text);
    assert(text::trim_start_of(text) == text);
    assert(text::trim_of(padded) == text);
    let name = pair.0;
    assert(text[name.len() as int] == '=');
    assert forall|i: int| 0 <= i < name.len() implies text[i] != '=' by {
        assert(text[i] == name[i]);
        assert(name.contains(name[i]));
    }
    text::lemma_find_char_is(text, '=', name.len() as int);
    assert(text.take(name.len() as int) =~= name);
    assert(text.skip(name.len() as int + 1) =~= pair.1);
    assert forall|i: int| 0 <= i < text.len() implies text[i] != ';' by {
        if i < name.len() {
            assert(text[i] == name[i]);
            assert(name.contains(name[i]));
        } else if i > name.len() {
            assert(text[i] == pair.1[i - name.len() - 1]);
            assert(pair.1.contains(pair.1[i - name.len() - 1]));
        }
    }
}

/// What is written to a header is read back from it.
pub proof fn headers_read_back(jar: Jar)
    requires
        readable(jar),
    ensures
        jar_of(jar_text(jar)) == jar,
    decreases jar.len(),
{
    let texts = Seq::new(jar.len(), |i: int| pair_text(jar[i]));
    reveal_strlit("; ");
    if jar.len() == 0 {
        assert(texts =~= Seq::<Seq<char>>::empty());
        let none = Seq::<char>::empty();
        text::lemma_split_whole(none, ';');
        assert(text::split_on(none, ';').drop_last() =~= Seq::<Seq<char>>::empty());
        assert(text::trim_of(none) == none);
        assert(jar_of_parts(text::split_on(none, ';').drop_last()) =~= jar);
        assert(jar_of(none) =~= jar);
    } else {
        let head = jar.drop_last();
        let last = jar.last();
        assert(is_readable(jar[jar.len() - 1]));
        let before = Seq::new(head.len(), |i: int| pair_text(head[i]));
        assert(texts.drop_last() =~= before);
        assert forall|i: int| 0 <= i < head.len() implies is_readable(#[trigger] head[i]) by {
            assert(head[i] == jar[i]);
        }
        assert(jar_distinct(head)) by {
            assert forall|i: int, j: int| 0 <= i < j < head.len() implies #[trigger] head[i].0
                != #[trigger] head[j].0 by {
                assert(jar[i].0 != jar[j].0);
            }
        }
        headers_read_back(head);
        assert forall|i: int| 0 <= i < head.len() implies (#[trigger] head[i]).0 != last.0 by {
            assert(jar[i].0 != jar[jar.len() - 1].0);
        }
        lemma_jar_find_is(head, last.0, head.len() as int);
        assert(jar_put(head, last.0, last.1) =~= jar);
        if head.len() == 0 {
            lemma_read_part(head, last, false);
            text::lemma_split_whole(pair_text(last), ';');
            let parts = text::split_on(jar_text(jar), ';');
            assert(parts.drop_last() =~= Seq::<Seq<char>>::empty());
            assert(jar_of_parts(parts.drop_last()) =~= head);
            assert(jar_text(jar) == pair_text(last));
        } else {
            lemma_read_part(head, last, true);
            let padded = seq![' '] + pair_text(last);
            assert(!padded.contains(';')) by {
                assert forall|i: int| 0 <= i < padded.len() implies padded[i] != ';' by {
                    if i > 0 {
                        assert(padded[i] == pair_text(last)[i - 1]);
                        assert(pair_text(last).contains(pair_text(last)[i - 1]));
                    }
                }
            }
            text::lemma_split_whole(padded, ';');
            assert(jar_text(jar) =~= jar_text(head) + seq![';'] + padded);
            text::lemma_split_concat(jar_text(head), padded, ';');
            let parts = text::split_on(jar_text(jar), ';');
            assert(parts.drop_last() =~= text::split_on(jar_text(head), ';'));
            assert(parts.last() == padded);
        }
    }
}

proof fn lemma_put_readable(jar: Jar, pair: (Seq<char>, Seq<char>))
    requires
        readable(jar),
        is_readable(pair),
    ensures
        readable(jar_put(jar, pair.0, pair.1)),
{
    lemma_jar_find(jar, pair.0);
    let at = jar_find(jar, pair.0);
    let after = jar_put(jar, pair.0, pair.1);
    assert forall|i: int, j: int| 0 <= i < j < after.len() implies #[trigger] after[i].0
        != #[trigger] after[j].0 by {
        if j < jar.len() {
            assert(jar[i].0 != jar[j].0);
        } else {
            assert(jar[i].0 != pair.0);
        }
    }
    assert forall|i: int| 0 <= i < after.len() implies is_readable(#[trigger] after[i]) by {
        if i != at {
            assert(is_readable(jar[i]));
        }
    }
}

proof fn lemma_remove_readable(jar: Jar, name: Seq<char>)
    requires
        readable(jar),
    ensures
        readable(jar_remove(jar, name)),
{
    lemma_jar_find(jar, name);
    let at = jar_find(jar, name);
    let after = jar_remove(jar, name);
    if at < jar.len() {
        assert forall|i: int, j: int| 0 <= i < j < after.len() implies #[trigger] after[i].0
            != #[trigger] after[j].0 by {
            let a = if i < at {
                i
            } else {
                i + 1
            };
            let b = if j < at {
                j
            } else {
                j + 1
            };
            assert(after[i] == jar[a] && after[j] == jar[b]);
            assert(jar[a].0 != jar[b].0);
        }
        assert forall|i: int| 0 <= i < after.len() implies is_readable(#[trigger] after[i]) by {
            let a = if i < at {
                i
            } else {
                i + 1
            };
            assert(is_readable(jar[a]));
        }
    }
}

/// What stands around the first `=` of a text that begins and ends with something.
proof fn lemma_split_readable(part: Seq<char>)
    requires
        text::is_trimmed(part),
        !part.contains(';'),
    ensures
        text::split_once_of(part, '=') matches Some(p) ==> is_readable(p) && pair_text(p) == part,
{
    reveal_strlit("=");
    text::lemma_find_char(part, '=');
    let at = text::find_char(part, '=');
    if at < part.len() {
        let name = part.take(at);
        let value = part.skip(at + 1);
        assert(pair_text((name, value)) =~= part);
        assert forall|i: int| 0 <= i < name.len() implies name[i] != '=' && name[i] != ';' by {
            assert(part.contains(part[i]));
        }
        assert forall|i: int| 0 <= i < value.len() implies value[i] != ';' by {
            assert(part.contains(part[i + at + 1]));
        }
    }
}

/// Whatever a header holds, what is read from it can be written to a header and read back.
pub proof fn read_cookies_are_readable(header: Seq<char>)
    ensures
        readable(jar_of(header)),
{
    text::lemma_split_pieces(header, ';');
    lemma_parts_readable(text::split_on(header, ';'));
}

proof fn lemma_parts_readable(parts: Seq<Seq<char>>)
    requires
        forall|i: int| 0 <= i < parts.len() ==> !(#[trigger] parts[i]).contains(';'),
    ensures
        readable(jar_of_parts(parts)),
    decreases parts.len(),
{
    if parts.len() > 0 {
        let head = parts.drop_last();
        assert forall|i: int| 0 <= i < head.len() implies !(#[trigger] head[i]).contains(';') by {
            assert(head[i] == parts[i]);
        }
        lemma_parts_readable(head);
        let last = parts[parts.len() - 1];
        assert(!last.contains(';'));
        text::lemma_trim(last);
        text::lemma_trim_keeps(last, ';');
        lemma_split_readable(text::trim_of(last));
        if let Some(p) = text::split_once_of(text::trim_of(last), '=') {
            lemma_put_readable(jar_of_parts(head), p);
        }
    }
}

proof fn lemma_header_chars_keep(s: Seq<char>, c: char)
    requires
        !s.contains(c),
    ensures
        !header_chars(s).contains(c),
    decreases s.len(),
{
    if s.len() > 0 {
        let head = s.drop_last();
        assert forall|i: int| 0 <= i < head.len() implies head[i] != c by {
            assert(s.contains(s[i]));
        }
        lemma_header_chars_keep(head, c);
        assert(s.contains(s[s.len() - 1]));
        let kept = header_chars(head);
        assert forall|i: int| 0 <= i < header_chars(s).len() implies header_chars(s)[i] != c by {
            if i < kept.len() {
                assert(kept.contains(kept[i]));
            }
        }
    }
}

proof fn lemma_set_cookie_readable(raw: Seq<char>)
    ensures
        set_cookie_pair(raw) matches Some(p) ==> text::is_trimmed(pair_text(p)) ==> is_readable(p),
{
    reveal_strlit("=");
    text::lemma_split_pieces(raw, ';');
    let part = text::split_on(raw, ';')[0];
    assert(!part.contains(';'));
    text::lemma_trim(part);
    text::lemma_trim_keeps(part, ';');
    lemma_split_readable(text::trim_of(part));
    if let Some(p) = text::split_once_of(text::trim_of(part), '=') {
        text::lemma_trim_keeps(p.0, '=');
        text::lemma_trim_keeps(p.0, ';');
        text::lemma_trim_keeps(p.1, ';');
        lemma_header_chars_keep(text::trim_of(p.0), '=');
        lemma_header_chars_keep(text::trim_of(p.0), ';');
        lemma_header_chars_keep(text::trim_of(p.1), ';');
    }
}

/// Whether a `Set-Cookie` header sets a cookie that can be read back: no white space is left at
/// either end of it once it is cleaned.
pub open spec fn sets_readable(raw: Seq<char>) -> bool {
    set_cookie_pair(raw) matches Some(p) ==> p.0.len() > 0 && !deletes(p.1) ==> text::is_trimmed(
        pair_text(p),
    )
}

/// Merged cookies are read back from the merged header: the new ones with their new values, the
/// deleted ones not at all, and the others as they were.
pub proof fn merged_cookies_read_back(header: Seq<char>, raws: Seq<Seq<char>>)
    requires
        forall|i: int| 0 <= i < raws.len() ==> sets_readable(#[trigger] raws[i]),
    ensures
        jar_of(merged_header(header, raws)) == with_set_cookies(jar_of(header), raws),
{
    read_cookies_are_readable(header);
    lemma_merge_readable(jar_of(header), raws);
    headers_read_back(with_set_cookies(jar_of(header), raws));
}

proof fn lemma_merge_readable(jar: Jar, raws: Seq<Seq<char>>)
    requires
        readable(jar),
        forall|i: int| 0 <= i < raws.len() ==> sets_readable(#[trigger] raws[i]),
    ensures
        readable(with_set_cookies(jar, raws)),
    decreases raws.len(),
{
    if raws.len() > 0 {
        let head = raws.drop_last();
        assert forall|i: int| 0 <= i < head.len() implies sets_readable(#[trigger] head[i]) by {
            assert(head[i] == raws[i]);
        }
        lemma_merge_readable(jar, head);
        let last = raws[raws.len() - 1];
        lemma_set_cookie_readable(last);
        if let Some(p) = set_cookie_pair(last) {
            let before = with_set_cookies(jar, head);
            lemma_remove_readable(before, p.0);
            if p.0.len() > 0 && !deletes(p.1) {
                assert(sets_readable(last));
                lemma_put_readable(before, p);
            }
        }
    }
}

/// Cleaning leaves only what may stand in a header, leaves a text alone that holds nothing else,
/// and so changes nothing when it is done again.
pub proof fn cleaning_is_idempotent(s: Seq<char>)
    ensures
        (forall|i: int| 0 <= i < s.len() ==> header_char(#[trigger] s[i])) ==> header_chars(s) == s,
        header_chars(header_chars(s)) == header_chars(s),
    decreases s.len(),
{
    lemma_header_chars_legal(s);
    lemma_clean_stays(header_chars(s));
    if forall|i: int| 0 <= i < s.len() ==> header_char(#[trigger] s[i]) {
        lemma_clean_stays(s);
    }
}

proof fn lemma_clean_stays(s: Seq<char>)
    requires
        forall|i: int| 0 <= i < s.len() ==> header_char(#[trigger] s[i]),
    ensures
        header_chars(s) == s,
    decreases s.len(),
{
    if s.len() > 0 {
        assert(header_char(s[s.len() - 1]));
        let head = s.drop_last();
        assert forall|i: int| 0 <= i < head.len() implies header_char(#[trigger] head[i]) by {
            assert(head[i] == s[i]);
        }
        lemma_clean_stays(head);
        assert(head.push(s.last()) =~= s);
    }
}

/// The first piece of a text that goes on with `;` or not at all.
pub proof fn lemma_first_piece(head: Seq<char>, rest: Seq<char>)
    requires
        !head.contains(';'),
        rest.len() > 0 ==> rest[0] == ';',
    ensures
        text::split_on(head + rest, ';').len() > 0,
        text::split_on(head + rest, ';')[0] == head,
{
    text::lemma_split_whole(head, ';');
    if rest.len() == 0 {
        assert(head + rest =~= head);
    } else {
        let tail = rest.skip(1);
        assert(head + rest =~= head + seq![';'] + tail);
        text::lemma_split_concat(head, tail, ';');
        text::lemma_split_pieces(head, ';');
    }
}

/// Whether a text can be a cookie's name or value just as it is.
pub open spec fn is_clean(s: Seq<char>) -> bool {
    &&& text::is_trimmed(s)
    &&& !s.contains(';')
    &&& forall|i: int| 0 <= i < s.len() ==> header_char(#[trigger] s[i])
}

/// A `Set-Cookie` header sets its cookie, whatever attributes follow: afterwards the jar has the
/// name with the new value, also where it had another before. An empty value, or one that says
/// that the cookie is deleted, takes the cookie away. Every other cookie stays as it is.
pub proof fn set_cookies_take_effect(
    jar: Jar,
    name: Seq<char>,
    value: Seq<char>,
    rest: Seq<char>,
    other: Seq<char>,
)
    requires
        jar_distinct(jar),
        name.len() > 0,
        is_clean(name),
        !name.contains('='),
        is_clean(value),
        rest.len() > 0 ==> rest[0] == ';',
    ensures
        value.len() > 0 && !text::same_ignoring_case(value, "deleted"@) ==> jar_get(
            with_set_cookie(jar, name + "="@ + value + rest),
            name,
        ) == Some(value),
        value.len() == 0 || value == "deleted"@ ==> jar_get(
            with_set_cookie(jar, name + "="@ + value + rest),
            name,
        ) is None,
        other != name ==> jar_get(with_set_cookie(jar, name + "="@ + value + rest), other)
            == jar_get(jar, other),
{
    reveal_strlit("=");
    let head = name + "="@ + value;
    let raw = name + "="@ + value + rest;
    assert(head[name.len() as int] == '=');
    assert forall|i: int| 0 <= i < head.len() implies head[i] != ';' by {
        if i < name.len() {
            assert(name.contains(name[i]));
        } else if i > name.len() {
            assert(value.contains(value[i - name.len() - 1]));
        }
    }
    lemma_first_piece(head, rest);
    assert(text::is_trimmed(head));
    text::lemma_trim(head);
    text::lemma_trim(name);
    text::lemma_trim(value);
    assert forall|i: int| 0 <= i < name.len() implies head[i] != '=' by {
        assert(name.contains(name[i]));
    }
    text::lemma_find_char_is(head, '=', name.len() as int);
    assert(head.take(name.len() as int) =~= name);
    assert(head.skip(name.len() as int + 1) =~= value);
    lemma_clean_stays(name);
    lemma_clean_stays(value);
    assert(set_cookie_pair(raw) == Some((name, value)));
    lemma_jar_find(jar, name);
    lemma_jar_find(jar, other);
    let at = jar_find(jar, name);
    let o = jar_find(jar, other);
    let put = jar_put(jar, name, value);
    lemma_jar_find_is(put, name, at);
    if other != name {
        if o < jar.len() {
            lemma_jar_find_is(put, other, o);
        } else {
            lemma_jar_find_is(put, other, put.len() as int);
        }
    }
    let gone = jar_remove(jar, name);
    if at < jar.len() {
        assert forall|i: int| 0 <= i < gone.len() implies (#[trigger] gone[i]).0 != name by {
            if i < at {
                assert(gone[i] == jar[i]);
            } else {
                assert(gone[i] == jar[i + 1]);
                assert(jar[at].0 != jar[i + 1].0);
            }
        }
        lemma_jar_find_is(gone, name, gone.len() as int);
        if other != name {
            if o < at {
                assert forall|i: int| 0 <= i < o implies (#[trigger] gone[i]).0 != other by {
                    assert(gone[i] == jar[i]);
                }
                lemma_jar_find_is(gone, other, o);
            } else {
                assert forall|i: int| 0 <= i < o - 1 implies (#[trigger] gone[i]).0 != other by {
                    if i < at {
                        assert(gone[i] == jar[i]);
                    } else {
                        assert(gone[i] == jar[i + 1]);
                    }
                }
                lemma_jar_find_is(gone, other, o - 1);
            }
        }
    }
    if value == "deleted"@ {
        assert(text::same_ignoring_case(value, "deleted"@));
    }
}

/// Of several cookies of one name in a header the last counts, and white space around a cookie
/// does not.
pub proof fn last_cookie_counts(header: Seq<char>, name: Seq<char>, value: Seq<char>, other: Seq<char>)
    requires
        is_readable((name, value)),
    ensures
        jar_get(jar_of(header + "; "@ + pair_text((name, value))), name) == Some(value),
        other != name ==> jar_get(jar_of(header + "; "@ + pair_text((name, value))), other)
            == jar_get(jar_of(header), other),
        jar_get(jar_of(pair_text((name, value))), name) == Some(value),
{
    reveal_strlit("; ");
    let pair = (name, value);
    let padded = seq![' '] + pair_text(pair);
    let all = header + "; "@ + pair_text(pair);
    assert(all =~= header + seq![';'] + padded);
    lemma_read_part(jar_of(header), pair, true);
    lemma_read_part(Seq::empty(), pair, false);
    assert(!padded.contains(';')) by {
        assert forall|i: int| 0 <= i < padded.len() implies padded[i] != ';' by {
            if i > 0 {
                assert(pair_text(pair).contains(pair_text(pair)[i - 1]));
            }
        }
    }
    text::lemma_split_whole(padded, ';');
    text::lemma_split_concat(header, padded, ';');
    let parts = text::split_on(all, ';');
    assert(parts.drop_last() =~= text::split_on(header, ';'));
    assert(parts.last() == padded);
    let jar = jar_of(header);
    let put = jar_put(jar, name, value);
    lemma_jar_find(jar, name);
    lemma_jar_find_is(put, name, jar_find(jar, name));
    if other != name {
        lemma_jar_find(jar, other);
        let o = jar_find(jar, other);
        if o < jar.len() {
            lemma_jar_find_is(put, other, o);
        } else {
            lemma_jar_find_is(put, other, put.len() as int);
        }
    }
    text::lemma_split_whole(pair_text(pair), ';');
    let one = text::split_on(pair_text(pair), ';');
    assert(one.drop_last() =~= Seq::<Seq<char>>::empty());
    let none: Jar = Seq::empty();
    assert(jar_of_parts(one.drop_last()) =~= none);
    lemma_jar_find_is(jar_put(none, name, value), name, 0);
}

/// Cleaning drops the characters that may not stand in a header and no other, wherever they stand:
/// visible ASCII, spaces and tabs stay, in their order.
pub proof fn cleaning_drops_only_illegal_characters(a: Seq<char>, b: Seq<char>, c: char)
    ensures
        header_chars(a + b) == header_chars(a) + header_chars(b),
        (' ' <= c <= '~') || c == '\t' ==> header_chars(seq![c]) == seq![c],
        !(' ' <= c <= '~') && c != '\t' ==> header_chars(seq![c]) == Seq::<char>::empty(),
        header_chars(Seq::empty()) == Seq::<char>::empty(),
    decreases b.len(),
{
    reveal_with_fuel(header_chars, 2);
    let one = seq![c];
    assert(one.drop_last() =~= Seq::<char>::empty());
    assert(Seq::<char>::empty().push(c) =~= one);
    if b.len() == 0 {
        assert(a + b =~= a);
        assert(header_chars(a) + Seq::<char>::empty() =~= header_chars(a));
    } else {
        assert((a + b).drop_last() =~= a + b.drop_last());
        assert((a + b).last() == b.last());
        cleaning_drops_only_illegal_characters(a, b.drop_last(), c);
        assert(header_chars(a + b) =~= header_chars(a) + header_chars(b));
    }
}

/// A cookie is sent as it is where it is legal, and not at all where nothing of it is left.
pub proof fn legal_cookies_are_sent(cookie: Seq<char>)
    ensures
        cookie.len() > 0 && text::is_trimmed(cookie) && (forall|i: int|
            0 <= i < cookie.len() ==> header_char(#[trigger] cookie[i])) ==> sendable_cookie(cookie)
            == Some(cookie),
        sendable_cookie(Seq::empty()) is None,
{
    text::lemma_trim(cookie);
    text::lemma_trim(Seq::<char>::empty());
    if forall|i: int| 0 <= i < cookie.len() ==> header_char(#[trigger] cookie[i]) {
        lemma_clean_stays(cookie);
    }
}

/// `Set-Cookie` headers take effect one after the other, in their order, so that the last one for a
/// name counts; without one the cookies stay as they are.
pub proof fn headers_take_effect_in_order(jar: Jar, a: Seq<Seq<char>>, b: Seq<Seq<char>>, raw: Seq<char>)
    ensures
        with_set_cookies(jar, a + b) == with_set_cookies(with_set_cookies(jar, a), b),
        with_set_cookies(jar, seq![raw]) == with_set_cookie(jar, raw),
        with_set_cookies(jar, Seq::empty()) == jar,
    decreases b.len(),
{
    reveal_with_fuel(with_set_cookies, 2);
    assert(seq![raw].drop_last() =~= Seq::empty());
    if b.len() == 0 {
        assert(a + b =~= a);
    } else {
        headers_take_effect_in_order(jar, a, b.drop_last(), raw);
        assert((a + b).drop_last() =~= a + b.drop_last());
    }
}

} // verus!
