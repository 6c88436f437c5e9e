//! Text as sequences of characters: strings and their characters,
//! numbers and their digits, white space, and the store of source files
//! that stands in for a file system.

use vstd::prelude::*;
use vstd::std_specs::iter::IteratorSpec;
use vstd::string::StrSliceExecFns;

verus! {

/// Appends one character to a string, by `String::push`: the string's
/// characters afterwards are those before, followed by `c`.
#[verifier::external_body]
pub(crate) fn push_char(s: &mut String, c: char)
    ensures
        final(s)@ == old(s)@.push(c),
{
    s.push(c);
}

/// The ten digits.
pub open spec fn is_digit(c: char) -> bool {
    '0' <= c && c <= '9'
}

/// The number that a digit stands for.
pub open spec fn digit_value(c: char) -> int {
    c as u32 - 48
}

/// The digit that stands for a number below ten.
pub open spec fn digit_char(d: int) -> char {
    (d + 48) as char
}

/// The number that a run of digits denotes.
pub open spec fn digits_value(s: Seq<char>) -> int
    decreases s.len(),
{
    if s.len() == 0 {
        0
    } else {
        digits_value(s.drop_last()) * 10 + digit_value(s.last())
    }
}

/// Whether every character of `s` is a digit.
pub open spec fn all_digits(s: Seq<char>) -> bool {
    forall|i: int| 0 <= i < s.len() ==> is_digit(#[trigger] s[i])
}

/// The decimal digits of `n`, without leading zeros.
pub open spec fn uint_to_text(n: nat) -> Seq<char>
    decreases n,
{
    if n < 10 {
        seq![digit_char(n as int)]
    } else {
        uint_to_text(n / 10).push(digit_char((n % 10) as int))
    }
}

/// The decimal digits of `n`, with `-` in front of a negative number.
pub open spec fn int_to_text(n: int) -> Seq<char> {
    if n < 0 {
        seq!['-'] + uint_to_text((-n) as nat)
    } else {
        uint_to_text(n as nat)
    }
}

/// White space, as Unicode defines it.
pub open spec fn is_space(c: char) -> bool {
    c == ' ' || ('\u{9}' <= c && c <= '\u{d}') || c == '\u{85}' || c == '\u{a0}' || c == '\u{1680}'
        || ('\u{2000}' <= c && c <= '\u{200a}') || c == '\u{2028}' || c == '\u{2029}' || c
        == '\u{202f}' || c == '\u{205f}' || c == '\u{3000}'
}

/// The first index at or after `i` that holds no white space.
pub open spec fn trim_start(s: Seq<char>, i: int) -> int
    decreases s.len() - i,
{
    if 0 <= i < s.len() && is_space(s[i]) {
        trim_start(s, i + 1)
    } else {
        i
    }
}

/// The least index from `lo` up to `j` with nothing but white space from
/// it up to `j`.
pub open spec fn trim_end(s: Seq<char>, j: int, lo: int) -> int
    decreases j,
{
    if 0 <= lo < j <= s.len() && is_space(s[j - 1]) {
        trim_end(s, j - 1, lo)
    } else {
        j
    }
}

/// `s` without the white space at its start and at its end.
pub open spec fn trimmed(s: Seq<char>) -> Seq<char> {
    let a = trim_start(s, 0);
    s.subrange(a, trim_end(s, s.len() as int, a))
}

/// The number that `s` spells in digits, if it is at most `limit`.
pub open spec fn magnitude(s: Seq<char>, limit: int) -> Option<int> {
    if s.len() > 0 && all_digits(s) && digits_value(s) <= limit {
        Some(digits_value(s))
    } else {
        None
    }
}

/// `s` without a `+` at its start.
pub open spec fn unsigned_part(s: Seq<char>) -> Seq<char> {
    if s.len() > 0 && s[0] == '+' {
        s.subrange(1, s.len() as int)
    } else {
        s
    }
}

/// The unsigned number that `s` spells: digits, with or without a `+`
/// before them, that denote a number of 64 bits.
pub open spec fn parsed_uint(s: Seq<char>) -> Option<u64> {
    match magnitude(unsigned_part(s), u64::MAX as int) {
        Some(v) => Some(v as u64),
        None => None,
    }
}

/// The signed number that `s` spells: digits, with or without a `+` or
/// a `-` before them, that denote a number of 64 bits.
pub open spec fn parsed_int(s: Seq<char>) -> Option<i64> {
    if s.len() > 0 && s[0] == '-' {
        match magnitude(s.subrange(1, s.len() as int), 0x8000_0000_0000_0000) {
            Some(v) => Some((-v) as i64),
            None => None,
        }
    } else {
        match magnitude(unsigned_part(s), i64::MAX as int) {
            Some(v) => Some(v as i64),
            None => None,
        }
    }
}

fn push_digits(n: u64, out: &mut String)
    ensures
        final(out)@ == old(out)@ + uint_to_text(n as nat),
    decreases n,
{
    if n >= 10 {
        push_digits(n / 10, out);
    }
    let d: u8 = (n % 10) as u8;
    push_char(out, (d + 48) as char);
    assert(final(out)@ =~= old(out)@ + uint_to_text(n as nat));
}

/// The decimal digits of `n`.
pub fn uint_text(n: u64) -> (s: String)
    ensures
        s@ == uint_to_text(n as nat),
{
    let mut s = String::new();
    push_digits(n, &mut s);
    assert(Seq::<char>::empty() + uint_to_text(n as nat) =~= uint_to_text(n as nat));
    s
}

/// The decimal digits of `n`, with `-` in front of a negative number.
pub fn int_text(n: i64) -> (s: String)
    ensures
        s@ == int_to_text(n as int),
{
    let mut s = String::new();
    if n < 0 {
        push_char(&mut s, '-');
        let m: u64 = if n == i64::MIN {
            0x8000_0000_0000_0000
        } else {
            (-n) as u64
        };
        push_digits(m, &mut s);
        assert(s@ =~= seq!['-'] + uint_to_text((-n) as nat));
    } else {
        push_digits(n as u64, &mut s);
        assert(s@ =~= uint_to_text(n as nat));
    }
    s
}

fn space(c: char) -> (b: bool)
    ensures
        b == is_space(c),
{
    c == ' ' || ('\u{9}' <= c && c <= '\u{d}') || c == '\u{85}' || c == '\u{a0}' || c == '\u{1680}'
        || ('\u{2000}' <= c && c <= '\u{200a}') || c == '\u{2028}' || c == '\u{2029}' || c
        == '\u{202f}' || c == '\u{205f}' || c == '\u{3000}'
}

/// A text without the white space at its start and at its end.
pub fn trim(s: &str) -> (r: String)
    ensures
        r@ == trimmed(s@),
{
    let v = chars_of(s);
    let mut a: usize = 0;
    while a < v.len() && space(v[a])
        invariant
            a <= v.len(),
            trim_start(v@, a as int) == trim_start(v@, 0),
        decreases v.len() - a,
    {
        a += 1;
    }
    let mut b: usize = v.len();
    while b > a && space(v[b - 1])
        invariant
            a <= b <= v.len(),
            trim_end(v@, b as int, a as int) == trim_end(v@, v@.len() as int, a as int),
        decreases b,
    {
        b -= 1;
    }
    string_of(&v, a, b)
}

/// The number that the digits `v[from..]` spell, if it is at most
/// `limit`.
fn read_magnitude(v: &Vec<char>, from: usize, limit: u64) -> (r: Option<u64>)
    requires
        from <= v.len(),
    ensures
        match magnitude(v@.subrange(from as int, v@.len() as int), limit as int) {
            Some(m) => r == Some(m as u64) && 0 <= m <= limit,
            None => r is None,
        },
{
    let ghost whole = v@.subrange(from as int, v@.len() as int);
    if from == v.len() {
        return None;
    }
    let mut acc: u64 = 0;
    let mut over = false;
    let mut i: usize = from;
    while i < v.len()
        invariant
            from <= i <= v.len(),
            whole == v@.subrange(from as int, v@.len() as int),
            all_digits(v@.subrange(from as int, i as int)),
            0 <= digits_value(v@.subrange(from as int, i as int)),
            !over ==> acc == digits_value(v@.subrange(from as int, i as int)) && acc <= limit,
            over ==> digits_value(v@.subrange(from as int, i as int)) > limit,
        decreases v.len() - i,
    {
        let c = v[i];
        if !('0' <= c && c <= '9') {
            assert(whole[i - from] == c);
            return None;
        }
        let d: u64 = (c as u32 - 48) as u64;
        let ghost before = v@.subrange(from as int, i as int);
        let ghost after = v@.subrange(from as int, i + 1);
        assert(after.drop_last() =~= before);
        assert(after.last() == c);
        assert(all_digits(after)) by {
            assert forall|k: int| 0 <= k < after.len() implies is_digit(#[trigger] after[k]) by {
                if k < before.len() {
                    assert(after[k] == before[k]);
                }
            }
        }
        if !over {
            if d > limit || acc > (limit - d) / 10 {
                over = true;
            } else {
                acc = acc * 10 + d;
            }
        }
        i += 1;
    }
    assert(v@.subrange(from as int, i as int) =~= whole);
    if over {
        None
    } else {
        Some(acc)
    }
}

/// A text read as an unsigned number.
pub fn parse_uint(s: &str) -> (r: Option<u64>)
    ensures
        r == parsed_uint(s@),
{
    let v = chars_of(s);
    let from: usize = if v.len() > 0 && v[0] == '+' {
        1
    } else {
        0
    };
    assert(v@.subrange(from as int, v@.len() as int) =~= unsigned_part(v@));
    read_magnitude(&v, from, u64::MAX)
}

/// A text read as a signed number.
pub fn parse_int(s: &str) -> (r: Option<i64>)
    ensures
        r == parsed_int(s@),
{
    let v = chars_of(s);
    if v.len() > 0 && v[0] == '-' {
        match read_magnitude(&v, 1, 0x8000_0000_0000_0000) {
            Some(m) => if m == 0x8000_0000_0000_0000 {
                Some(i64::MIN)
            } else {
                Some(-(m as i64))
            },
            None => None,
        }
    } else {
        let from: usize = if v.len() > 0 && v[0] == '+' {
            1
        } else {
            0
        };
        assert(v@.subrange(from as int, v@.len() as int) =~= unsigned_part(v@));
        match read_magnitude(&v, from, 0x7fff_ffff_ffff_ffff) {
            Some(m) => Some(m as i64),
            None => None,
        }
    }
}

/// The truth value that `s` spells: `true` or `false`, nothing else.
pub open spec fn parsed_bool(s: Seq<char>) -> Option<bool> {
    if s == "true"@ {
        Some(true)
    } else if s == "false"@ {
        Some(false)
    } else {
        None
    }
}

/// A text read as a truth value.
pub fn parse_bool(s: &str) -> (r: Option<bool>)
    ensures
        r == parsed_bool(s@),
{
    let v = chars_of(s);
    assert(v@.subrange(0, v@.len() as int) =~= v@);
    if range_is(&v, 0, v.len(), "true") {
        Some(true)
    } else if range_is(&v, 0, v.len(), "false") {
        Some(false)
    } else {
        None
    }
}

/// The characters of a string, in order.
pub fn chars_of(s: &str) -> (v: Vec<char>)
    ensures
        v@ == s@,
{
    let mut it = s.chars();
    let mut v: Vec<char> = Vec::new();
    loop
        invariant
            v@ + it.remaining() == s@,
        ensures
            v@ == s@,
        decreases s@.len() - v@.len(),
    {
        match it.next() {
            Some(c) => {
                v.push(c);
            },
            None => {
                assert(v@ =~= v@ + it.remaining());
                break ;
            },
        }
    }
    v
}

/// The string made of the characters `v[from..to]`.
pub fn string_of(v: &Vec<char>, from: usize, to: usize) -> (s: String)
    requires
        from <= to <= v.len(),
    ensures
        s@ == v@.subrange(from as int, to as int),
{
    let mut s = String::new();
    let mut i: usize = from;
    while i < to
        invariant
            from <= i <= to <= v.len(),
            s@ == v@.subrange(from as int, i as int),
        decreases to - i,
    {
        push_char(&mut s, v[i]);
        assert(v@.subrange(from as int, i as int).push(v@[i as int]) =~= v@.subrange(
            from as int,
            i + 1,
        ));
        i += 1;
    }
    s
}

/// Appends the characters of `tail` to `s`.
pub fn push_text(s: &mut String, tail: &str)
    ensures
        final(s)@ == old(s)@ + tail@,
{
    let chars = chars_of(tail);
    let mut i: usize = 0;
    while i < chars.len()
        invariant
            i <= chars.len(),
            chars@ == tail@,
            s@ == old(s)@ + chars@.subrange(0, i as int),
        decreases chars.len() - i,
    {
        push_char(s, chars[i]);
        assert(chars@.subrange(0, i as int).push(chars@[i as int]) =~= chars@.subrange(0, i + 1));
        assert((old(s)@ + chars@.subrange(0, i as int)).push(chars@[i as int]) =~= old(s)@
            + chars@.subrange(0, i + 1));
        i += 1;
    }
    assert(chars@.subrange(0, chars@.len() as int) =~= chars@);
}

/// Whether the characters `v[from..to]` spell `word`.
pub fn range_is(v: &Vec<char>, from: usize, to: usize, word: &str) -> (b: bool)
    requires
        from <= to <= v.len(),
    ensures
        b == (v@.subrange(from as int, to as int) == word@),
{
    let n = word.unicode_len();
    if to - from != n {
        return false;
    }
    let mut i: usize = 0;
    while i < n
        invariant
            i <= n,
            n == word@.len(),
            to - from == n,
            from <= to <= v.len(),
            forall|j: int| 0 <= j < i ==> v@[from + j] == word@[j],
        decreases n - i,
    {
        if v[from + i] != word.get_char(i) {
            assert(v@.subrange(from as int, to as int)[i as int] != word@[i as int]);
            return false;
        }
        i += 1;
    }
    assert(v@.subrange(from as int, to as int) =~= word@);
    true
}

/// A copy of a run of strings.
pub fn clone_strings(v: &Vec<String>) -> (r: Vec<String>)
    ensures
        r@ == v@,
{
    let mut r: Vec<String> = Vec::new();
    let mut i: usize = 0;
    while i < v.len()
        invariant
            i <= v.len(),
            r@ == v@.subrange(0, i as int),
        decreases v.len() - i,
    {
        r.push(v[i].clone());
        assert(v@.subrange(0, i as int).push(v@[i as int]) =~= v@.subrange(0, i + 1));
        i += 1;
    }
    assert(v@.subrange(0, v@.len() as int) =~= v@);
    r
}

/// A source file held in memory: its path and its text.
pub struct SourceFile {
    pub path: String,
    pub text: String,
}

/// The source files that the library may read, by path. The library opens
/// no file itself: whoever calls it puts the texts here first.
pub struct Sources {
    pub files: Vec<SourceFile>,
}

/// The index of the first file at or after `i` whose path is `path`.
pub open spec fn find_source(files: Seq<SourceFile>, path: Seq<char>, i: int) -> Option<int>
    decreases files.len() - i,
{
    if i < 0 || i >= files.len() {
        None
    } else if files[i].path@ == path {
        Some(i)
    } else {
        find_source(files, path, i + 1)
    }
}

/// The text stored under `path`, if any.
pub open spec fn source_text(files: Seq<SourceFile>, path: Seq<char>) -> Option<Seq<char>> {
    match find_source(files, path, 0) {
        Some(i) => Some(files[i].text@),
        None => None,
    }
}

/// What `find_source` finds is the index of a file.
pub proof fn lemma_find_source_bounds(files: Seq<SourceFile>, path: Seq<char>, i: int)
    requires
        0 <= i,
    ensures
        find_source(files, path, i) is Some ==> i <= find_source(files, path, i)->0 < files.len(),
    decreases files.len() - i,
{
    if i < files.len() && files[i].path@ != path {
        lemma_find_source_bounds(files, path, i + 1);
    }
}

impl Sources {
    /// No files.
    pub fn new() -> (s: Sources)
        ensures
            s.files@.len() == 0,
    {
        Sources { files: Vec::new() }
    }

    /// Stores `text` under `path`, behind the files already stored: a path
    /// stored twice keeps its first text.
    pub fn add(&mut self, path: String, text: String)
        ensures
            final(self).files@ == old(self).files@.push(SourceFile { path, text }),
    {
        self.files.push(SourceFile { path, text });
    }

    /// The index of the file stored under `path`.
    pub fn find(&self, path: &String) -> (r: Option<usize>)
        ensures
            r is Some ==> find_source(self.files@, path@, 0) == Some(r->0 as int) && r->0
                < self.files@.len(),
            r is None ==> find_source(self.files@, path@, 0) is None,
    {
        let mut i: usize = 0;
        while i < self.files.len()
            invariant
                i <= self.files.len(),
                find_source(self.files@, path@, 0) == find_source(self.files@, path@, i as int),
            decreases self.files.len() - i,
        {
            if self.files[i].path == *path {
                return Some(i);
            }
            i += 1;
        }
        None
    }

    /// A copy of the store.
    pub fn duplicate(&self) -> (r: Sources)
        ensures
            r.files@.len() == self.files@.len(),
            forall|i: int|
                0 <= i < self.files@.len() ==> r.files@[i].path@ == self.files@[i].path@
                    && r.files@[i].text@ == self.files@[i].text@,
            forall|path: Seq<char>| source_text(r.files@, path) == source_text(self.files@, path),
    {
        let mut files: Vec<SourceFile> = Vec::new();
        let mut i: usize = 0;
        while i < self.files.len()
            invariant
                i <= self.files.len(),
                files@.len() == i,
                forall|j: int|
                    0 <= j < i ==> files@[j].path@ == self.files@[j].path@ && files@[j].text@
                        == self.files@[j].text@,
            decreases self.files.len() - i,
        {
            files.push(
                SourceFile { path: self.files[i].path.clone(), text: self.files[i].text.clone() },
            );
            i += 1;
        }
        let r = Sources { files };
        assert forall|path: Seq<char>|
            source_text(r.files@, path) == source_text(self.files@, path) by {
            lemma_same_sources(r.files@, self.files@, path, 0);
        }
        r
    }
}

/// Two stores with the same paths and texts, file by file, answer alike.
pub proof fn lemma_same_sources(a: Seq<SourceFile>, b: Seq<SourceFile>, path: Seq<char>, i: int)
    requires
        0 <= i,
        a.len() == b.len(),
        forall|j: int| 0 <= j < a.len() ==> a[j].path@ == b[j].path@ && a[j].text@ == b[j].text@,
    ensures
        find_source(a, path, i) == find_source(b, path, i),
        i == 0 ==> source_text(a, path) == source_text(b, path),
    decreases a.len() - i,
{
    if i < a.len() && a[i].path@ != path {
        lemma_same_sources(a, b, path, i + 1);
    }
    if i == 0 {
        lemma_find_source_bounds(a, path, 0);
    }
}

} // verus!
