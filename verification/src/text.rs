//! Character classes, scanning, and the string functions that names and
//! generated text are made of. Every text is modelled as a `Seq<char>`.

use vstd::prelude::*;

verus! {

/// The characters that may separate tokens: tab, carriage return, line feed, space.
pub open spec fn blank(c: char) -> bool {
    c == '\t' || c == '\r' || c == '\n' || c == ' '
}

/// The characters of a provider's or a probe's name: ASCII letters and digits, `-`, `_`.
pub open spec fn name_char(c: char) -> bool {
    ('0' <= c && c <= '9') || ('a' <= c && c <= 'z') || ('A' <= c && c <= 'Z') || c == '-' || c
        == '_'
}

/// The characters of a type spelling: all but the argument separator and the closing parenthesis.
pub open spec fn type_char(c: char) -> bool {
    c != ',' && c != ')'
}

/// The characters with the Unicode property White_Space.
pub open spec fn space(c: char) -> bool {
    let n = c as u32;
    (0x09 <= n && n <= 0x0d) || n == 0x20 || n == 0x85 || n == 0xa0 || n == 0x1680 || (0x2000 <= n
        && n <= 0x200a) || n == 0x2028 || n == 0x2029 || n == 0x202f || n == 0x205f || n == 0x3000
}

/// Whether a character may separate tokens.
pub fn is_blank(c: char) -> (r: bool)
    ensures
        r == blank(c),
{
    c == '\t' || c == '\r' || c == '\n' || c == ' '
}

/// Whether a character may stand in a name.
pub fn is_name_char(c: char) -> (r: bool)
    ensures
        r == name_char(c),
{
    ('0' <= c && c <= '9') || ('a' <= c && c <= 'z') || ('A' <= c && c <= 'Z') || c == '-' || c
        == '_'
}

/// Whether a character may stand in a type spelling.
pub fn is_type_char(c: char) -> (r: bool)
    ensures
        r == type_char(c),
{
    c != ',' && c != ')'
}

/// Whether a character has the property White_Space.
pub fn is_space(c: char) -> (r: bool)
    ensures
        r == space(c),
{
    let n: u32 = c as u32;
    (0x09 <= n && n <= 0x0d) || n == 0x20 || n == 0x85 || n == 0xa0 || n == 0x1680 || (0x2000 <= n
        && n <= 0x200a) || n == 0x2028 || n == 0x2029 || n == 0x202f || n == 0x205f || n == 0x3000
}

/// A class of characters that the scanner can take a run of.
#[derive(Clone, Copy, Debug)]
pub enum CharClass {
    Blank,
    Name,
    Type,
}

impl CharClass {
    /// Whether the character belongs to the class.
    pub open spec fn holds(self, c: char) -> bool {
        match self {
            CharClass::Blank => blank(c),
            CharClass::Name => name_char(c),
            CharClass::Type => type_char(c),
        }
    }

    /// Tells whether the character belongs to the class.
    pub fn test(self, c: char) -> (r: bool)
        ensures
            r == self.holds(c),
    {
        match self {
            CharClass::Blank => is_blank(c),
            CharClass::Name => is_name_char(c),
            CharClass::Type => is_type_char(c),
        }
    }
}

/// Where the longest run of characters of `class` that starts at `i` ends.
pub open spec fn run_end(s: Seq<char>, class: CharClass, i: int) -> int
    decreases s.len() - i,
{
    if 0 <= i < s.len() && class.holds(s[i]) {
        run_end(s, class, i + 1)
    } else {
        i
    }
}

/// `run_end` stays inside the text, every character before it belongs to the
/// class, and the character at it, if there is one, does not.
pub proof fn lemma_run_end(s: Seq<char>, class: CharClass, i: int)
    requires
        0 <= i <= s.len(),
    ensures
        i <= run_end(s, class, i) <= s.len(),
        forall|j: int| i <= j < run_end(s, class, i) ==> class.holds(#[trigger] s[j]),
        run_end(s, class, i) < s.len() ==> !class.holds(s[run_end(s, class, i)]),
    decreases s.len() - i,
{
    if i < s.len() && class.holds(s[i]) {
        lemma_run_end(s, class, i + 1);
    }
}

/// A run ends at `end` where every character from `i` to there belongs to the
/// class and the one at `end`, if there is one, does not.
pub proof fn lemma_run_ends_at(s: Seq<char>, class: CharClass, i: int, end: int)
    requires
        0 <= i <= end <= s.len(),
        forall|j: int| i <= j < end ==> class.holds(#[trigger] s[j]),
        end == s.len() || !class.holds(s[end]),
    ensures
        run_end(s, class, i) == end,
    decreases end - i,
{
    if i < end {
        lemma_run_ends_at(s, class, i + 1, end);
    }
}

/// The characters of a text, one by one.
pub fn chars_of(s: &str) -> (r: Vec<char>)
    ensures
        r@ == s@,
{
    let mut out: Vec<char> = Vec::new();
    for c in it: s.chars()
        invariant
            out@ == it.seq().take(it.index() as int),
            it.seq() == s@,
    {
        out.push(c);
    }
    out
}

/// Takes the longest run of characters of `class` from `pos` on and returns its end.
pub fn scan(chars: &Vec<char>, class: CharClass, pos: usize) -> (end: usize)
    ensures
        end == run_end(chars@, class, pos as int),
        pos <= end,
        pos <= chars@.len() ==> end <= chars@.len(),
{
    let mut i: usize = pos;
    while i < chars.len() && class.test(chars[i])
        invariant
            pos <= i,
            pos <= chars@.len() ==> i <= chars@.len(),
            run_end(chars@, class, pos as int) == run_end(chars@, class, i as int),
        decreases chars@.len() - i,
    {
        i += 1;
    }
    i
}

/// Whether `word` stands in `s` at `i`.
pub open spec fn word_at(s: Seq<char>, word: Seq<char>, i: int) -> bool {
    0 <= i && i + word.len() <= s.len() && s.subrange(i, i + word.len()) == word
}

/// Tells whether `word` stands in `chars` at `pos`.
pub fn has_word_at(chars: &Vec<char>, word: &Vec<char>, pos: usize) -> (r: bool)
    ensures
        r == word_at(chars@, word@, pos as int),
        r ==> pos + word@.len() <= usize::MAX,
{
    if pos > chars.len() || word.len() > chars.len() - pos {
        return false;
    }
    let mut k: usize = 0;
    while k < word.len()
        invariant
            pos + word.len() <= chars.len(),
            k <= word.len(),
            chars@.subrange(pos as int, pos + k) == word@.take(k as int),
        decreases word@.len() - k,
    {
        if chars[pos + k] != word[k] {
            proof {
                let full = chars@.subrange(pos as int, pos + word@.len());
                assert(full[k as int] == chars@[pos + k]);
            }
            return false;
        }
        proof {
            assert(chars@.subrange(pos as int, pos + k + 1) =~= chars@.subrange(
                pos as int,
                pos + k,
            ).push(chars@[pos + k]));
            assert(word@.take(k + 1) =~= word@.take(k as int).push(word@[k as int]));
        }
        k += 1;
    }
    proof {
        assert(word@.take(word@.len() as int) =~= word@);
    }
    true
}

/// The first place at or after `i` where `word` stands in `s`, if there is one.
pub open spec fn find_word(s: Seq<char>, word: Seq<char>, i: int) -> Option<int>
    decreases s.len() + 1 - i,
{
    if i < 0 || i + word.len() > s.len() {
        None
    } else if word_at(s, word, i) {
        Some(i)
    } else {
        find_word(s, word, i + 1)
    }
}

/// `find_word` gives a place where the word stands, and the word stands nowhere
/// between `i` and that place; where it gives none, the word stands nowhere from `i` on.
pub proof fn lemma_find_word(s: Seq<char>, word: Seq<char>, i: int)
    requires
        0 <= i,
    ensures
        match find_word(s, word, i) {
            Some(j) => i <= j && word_at(s, word, j) && forall|k: int|
                i <= k < j ==> !word_at(s, word, k),
            None => forall|k: int| i <= k ==> !word_at(s, word, k),
        },
    decreases s.len() + 1 - i,
{
    if i + word.len() <= s.len() && !word_at(s, word, i) {
        lemma_find_word(s, word, i + 1);
    }
}

/// Finds the first place at or after `pos` where `word` stands in `chars`.
pub fn find(chars: &Vec<char>, word: &Vec<char>, pos: usize) -> (r: Option<usize>)
    ensures
        match r {
            Some(j) => find_word(chars@, word@, pos as int) == Some(j as int) && pos <= j
                && j + word@.len() <= chars@.len(),
            None => find_word(chars@, word@, pos as int) is None,
        },
{
    if pos > chars.len() {
        return None;
    }
    let mut i: usize = pos;
    while i < chars.len() && word.len() <= chars.len() - i
        invariant
            pos <= i <= chars@.len(),
            find_word(chars@, word@, pos as int) == find_word(chars@, word@, i as int),
        decreases chars@.len() - i,
    {
        if has_word_at(chars, word, i) {
            return Some(i);
        }
        i += 1;
    }
    if i == chars.len() && word.len() == 0 {
        proof {
            assert(chars@.subrange(i as int, i as int) =~= word@);
        }
        return Some(i);
    }
    None
}

/// A text without the White_Space characters at its start.
pub open spec fn trim_start(t: Seq<char>) -> Seq<char>
    decreases t.len(),
{
    if t.len() > 0 && space(t[0]) {
        trim_start(t.skip(1))
    } else {
        t
    }
}

/// A text without the White_Space characters at its end.
pub open spec fn trim_end(t: Seq<char>) -> Seq<char>
    decreases t.len(),
{
    if t.len() > 0 && space(t.last()) {
        trim_end(t.drop_last())
    } else {
        t
    }
}

/// A text without the White_Space characters at its start and at its end.
pub open spec fn trim(t: Seq<char>) -> Seq<char> {
    trim_end(trim_start(t))
}

/// The bounds of what `trim` leaves of the characters from `from` to `to`.
pub(crate) fn trim_range(chars: &Vec<char>, from: usize, to: usize) -> (r: (usize, usize))
    requires
        from <= to <= chars@.len(),
    ensures
        from <= r.0 <= r.1 <= to,
        chars@.subrange(r.0 as int, r.1 as int) == trim(chars@.subrange(from as int, to as int)),
{
    let mut a: usize = from;
    while a < to && is_space(chars[a])
        invariant
            from <= a <= to <= chars@.len(),
            trim_start(chars@.subrange(from as int, to as int)) == trim_start(
                chars@.subrange(a as int, to as int),
            ),
        decreases to - a,
    {
        proof {
            assert(chars@.subrange(a as int, to as int).skip(1) =~= chars@.subrange(
                a + 1,
                to as int,
            ));
        }
        a += 1;
    }
    let mut b: usize = to;
    while b > a && is_space(chars[b - 1])
        invariant
            a <= b <= to <= chars@.len(),
            trim_end(chars@.subrange(a as int, to as int)) == trim_end(
                chars@.subrange(a as int, b as int),
            ),
        decreases b - a,
    {
        proof {
            assert(chars@.subrange(a as int, b as int).drop_last() =~= chars@.subrange(
                a as int,
                b - 1,
            ));
        }
        b -= 1;
    }
    (a, b)
}

/// A text without the White_Space at its start and at its end.
pub fn trim_text<'a>(s: &'a str) -> (r: &'a str)
    ensures
        r@ == trim(s@),
{
    let chars = chars_of(s);
    let (from, to) = trim_range(&chars, 0, chars.len());
    proof {
        assert(s@.subrange(0, chars@.len() as int) =~= s@);
    }
    s.substring_char(from, to)
}

/// Whether a text is a name: not empty, and made of name characters.
pub open spec fn is_name(n: Seq<char>) -> bool {
    n.len() > 0 && forall|i: int| 0 <= i < n.len() ==> name_char(#[trigger] n[i])
}

/// Whether a text is a type spelling as the parser keeps it: not empty, made
/// of type characters, with no White_Space at its start or at its end.
pub open spec fn is_spelling(a: Seq<char>) -> bool {
    a.len() > 0 && !space(a[0]) && !space(a.last()) && forall|i: int|
        0 <= i < a.len() ==> type_char(#[trigger] a[i])
}

/// What `trim_start` leaves does not start with White_Space, and is made of
/// type characters where the text is.
pub proof fn lemma_trim_start(t: Seq<char>)
    ensures
        trim_start(t).len() > 0 ==> !space(trim_start(t)[0]),
        (forall|i: int| 0 <= i < t.len() ==> type_char(#[trigger] t[i])) ==> forall|i: int|
            0 <= i < trim_start(t).len() ==> type_char(#[trigger] trim_start(t)[i]),
    decreases t.len(),
{
    if t.len() > 0 && space(t[0]) {
        lemma_trim_start(t.skip(1));
        if forall|i: int| 0 <= i < t.len() ==> type_char(#[trigger] t[i]) {
            assert forall|i: int| 0 <= i < t.skip(1).len() implies type_char(
                #[trigger] t.skip(1)[i],
            ) by {
                assert(t.skip(1)[i] == t[i + 1]);
            }
        }
    }
}

/// What `trim_end` leaves does not end with White_Space, starts as the text
/// does, and is made of type characters where the text is.
pub proof fn lemma_trim_end(t: Seq<char>)
    ensures
        trim_end(t).len() > 0 ==> !space(trim_end(t).last()) && trim_end(t)[0] == t[0],
        (forall|i: int| 0 <= i < t.len() ==> type_char(#[trigger] t[i])) ==> forall|i: int|
            0 <= i < trim_end(t).len() ==> type_char(#[trigger] trim_end(t)[i]),
    decreases t.len(),
{
    if t.len() > 0 && space(t.last()) {
        lemma_trim_end(t.drop_last());
        if forall|i: int| 0 <= i < t.len() ==> type_char(#[trigger] t[i]) {
            assert forall|i: int| 0 <= i < t.drop_last().len() implies type_char(
                #[trigger] t.drop_last()[i],
            ) by {
                assert(t.drop_last()[i] == t[i]);
            }
        }
    }
}

/// What `trim` leaves of a run of type characters is a spelling, unless nothing is left.
pub proof fn lemma_trim_gives_spelling(t: Seq<char>)
    requires
        forall|i: int| 0 <= i < t.len() ==> type_char(#[trigger] t[i]),
    ensures
        trim(t).len() > 0 ==> is_spelling(trim(t)),
{
    lemma_trim_start(t);
    lemma_trim_end(trim_start(t));
}

/// The decimal digit of a number below ten.
pub open spec fn digit(d: nat) -> char {
    if d == 0 {
        '0'
    } else if d == 1 {
        '1'
    } else if d == 2 {
        '2'
    } else if d == 3 {
        '3'
    } else if d == 4 {
        '4'
    } else if d == 5 {
        '5'
    } else if d == 6 {
        '6'
    } else if d == 7 {
        '7'
    } else if d == 8 {
        '8'
    } else {
        '9'
    }
}

/// A number written in decimal, without leading zeros.
pub open spec fn decimal(n: nat) -> Seq<char>
    decreases n,
{
    if n < 10 {
        seq![digit(n)]
    } else {
        decimal(n / 10).push(digit(n % 10))
    }
}

/// The digit of a number below ten, as a text.
fn digit_text(d: usize) -> (r: &'static str)
    requires
        d < 10,
    ensures
        r@ == seq![digit(d as nat)],
{
    proof {
        reveal_strlit("0");
        reveal_strlit("1");
        reveal_strlit("2");
        reveal_strlit("3");
        reveal_strlit("4");
        reveal_strlit("5");
        reveal_strlit("6");
        reveal_strlit("7");
        reveal_strlit("8");
        reveal_strlit("9");
    }
    let r = if d == 0 {
        "0"
    } else if d == 1 {
        "1"
    } else if d == 2 {
        "2"
    } else if d == 3 {
        "3"
    } else if d == 4 {
        "4"
    } else if d == 5 {
        "5"
    } else if d == 6 {
        "6"
    } else if d == 7 {
        "7"
    } else if d == 8 {
        "8"
    } else {
        "9"
    };
    assert(r@ =~= seq![digit(d as nat)]);
    r
}

/// Writes a number in decimal.
pub fn decimal_text(n: usize) -> (r: String)
    ensures
        r@ == decimal(n as nat),
    decreases n,
{
    if n < 10 {
        String::from_str(digit_text(n))
    } else {
        let mut out = decimal_text(n / 10);
        out.append(digit_text(n % 10));
        assert(out@ =~= decimal(n as nat / 10).push(digit(n as nat % 10)));
        out
    }
}

/// The items one after another, with `sep` between each two of them.
pub open spec fn join(items: Seq<Seq<char>>, sep: Seq<char>) -> Seq<char>
    decreases items.len(),
{
    if items.len() == 0 {
        Seq::empty()
    } else if items.len() == 1 {
        items[0]
    } else {
        join(items.drop_last(), sep) + sep + items.last()
    }
}

/// What one more item adds to the joined text of the first `i` items.
pub proof fn lemma_join_next(items: Seq<Seq<char>>, sep: Seq<char>, i: int)
    requires
        0 <= i < items.len(),
    ensures
        join(items.take(i + 1), sep) == if i == 0 {
            items[0]
        } else {
            join(items.take(i), sep) + sep + items[i]
        },
{
    assert(items.take(i + 1).drop_last() =~= items.take(i));
}

/// The joined text of the first items is a prefix of the joined text of all.
pub proof fn lemma_join_prefix(items: Seq<Seq<char>>, sep: Seq<char>, k: int)
    requires
        0 <= k <= items.len(),
    ensures
        join(items.take(k), sep).is_prefix_of(join(items, sep)),
    decreases items.len() - k,
{
    if k == items.len() {
        assert(items.take(k) =~= items);
    } else {
        lemma_join_next(items, sep, k);
        lemma_join_prefix(items, sep, k + 1);
        let a = join(items.take(k), sep);
        let b = join(items.take(k + 1), sep);
        let c = join(items, sep);
        if k == 0 {
            assert(a =~= Seq::<char>::empty());
        } else {
            assert(b.subrange(0, a.len() as int) =~= a);
        }
        assert(a.is_prefix_of(b));
        assert(a =~= c.subrange(0, a.len() as int)) by {
            assert(b =~= c.subrange(0, b.len() as int));
        }
    }
}

/// Whether `part` stands in `text` at `at`.
pub open spec fn occurs_at(text: Seq<char>, part: Seq<char>, at: int) -> bool {
    0 <= at && at + part.len() <= text.len() && text.subrange(at, at + part.len()) == part
}

/// What stands in a part of a text stands in the text, that much further on.
pub proof fn lemma_occurs_within(text: Seq<char>, part: Seq<char>, a: int, inner: Seq<char>, b: int)
    requires
        occurs_at(text, part, a),
        occurs_at(part, inner, b),
    ensures
        occurs_at(text, inner, a + b),
{
    assert(text.subrange(a + b, a + b + inner.len()) =~= text.subrange(a, a + part.len()).subrange(
        b,
        b + inner.len(),
    ));
}

/// The middle of three texts put together stands behind the first.
pub proof fn lemma_occurs_between(before: Seq<char>, part: Seq<char>, behind: Seq<char>)
    ensures
        occurs_at(before + part + behind, part, before.len() as int),
{
    assert((before + part + behind).subrange(
        before.len() as int,
        (before.len() + part.len()) as int,
    ) =~= part);
}

/// Where item `i` starts in the joined text of the items.
pub open spec fn join_offset(items: Seq<Seq<char>>, sep: Seq<char>, i: int) -> int {
    if i <= 0 {
        0
    } else {
        (join(items.take(i), sep).len() + sep.len()) as int
    }
}

/// Each item stands in the joined text at its offset, and the next item
/// starts behind it and the separator.
pub proof fn lemma_join_item(items: Seq<Seq<char>>, sep: Seq<char>, i: int)
    requires
        0 <= i < items.len(),
    ensures
        occurs_at(join(items, sep), items[i], join_offset(items, sep, i)),
        join_offset(items, sep, i + 1) == join_offset(items, sep, i) + items[i].len() + sep.len(),
{
    lemma_join_next(items, sep, i);
    lemma_join_prefix(items, sep, i + 1);
    let upto = join(items.take(i + 1), sep);
    let whole = join(items, sep);
    let at = join_offset(items, sep, i);
    if i == 0 {
        assert(items.take(0) =~= Seq::<Seq<char>>::empty());
    }
    assert(upto.subrange(at, at + items[i].len()) =~= items[i]);
    assert(whole.subrange(at, at + items[i].len()) =~= upto.subrange(at, at + items[i].len())) by {
        assert(upto =~= whole.subrange(0, upto.len() as int));
    }
}

/// An earlier item ends before a later item starts.
pub proof fn lemma_join_items_in_order(items: Seq<Seq<char>>, sep: Seq<char>, i: int, j: int)
    requires
        0 <= i < j < items.len(),
    ensures
        join_offset(items, sep, i) + items[i].len() <= join_offset(items, sep, j),
    decreases j - i,
{
    lemma_join_item(items, sep, i);
    if i + 1 < j {
        lemma_join_item(items, sep, i + 1);
        lemma_join_items_in_order(items, sep, i + 1, j);
    }
}

/// The texts that a vector of strings holds.
pub open spec fn texts(v: Seq<String>) -> Seq<Seq<char>> {
    Seq::new(v.len(), |i: int| v[i]@)
}

/// Joins the strings of a vector, with `sep` between each two of them.
pub fn join_texts(items: &Vec<String>, sep: &str) -> (r: String)
    ensures
        r@ == join(texts(items@), sep@),
{
    let mut out = String::new();
    let mut i: usize = 0;
    while i < items.len()
        invariant
            i <= items.len(),
            out@ == join(texts(items@).take(i as int), sep@),
        decreases items.len() - i,
    {
        proof {
            lemma_join_next(texts(items@), sep@, i as int);
        }
        if i > 0 {
            out.append(sep);
        }
        out.append(items[i].as_str());
        proof {
            if i == 0 {
                assert(out@ =~= texts(items@)[0]);
            }
        }
        i += 1;
    }
    proof {
        assert(texts(items@).take(items.len() as int) =~= texts(items@));
    }
    out
}

} // verus!
