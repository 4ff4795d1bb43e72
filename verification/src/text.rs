//! Operations on text, stated over sequences of characters.

use vstd::prelude::*;
use vstd::string::*;

verus! {

/// `str`'s `==` from the standard library: two texts are equal exactly when
/// they hold the same characters in the same order.
#[verifier::external_body]
pub(crate) fn same_text(a: &str, b: &str) -> (same: bool)
    ensures
        same == (a@ == b@),
{
    a == b
}

/// What is left of `s` behind `prefix`, where `s` begins with it.
pub open spec fn behind_prefix(s: Seq<char>, prefix: Seq<char>) -> Option<Seq<char>> {
    if prefix.is_prefix_of(s) {
        Some(s.skip(prefix.len() as int))
    } else {
        None
    }
}

/// What is left of `s` before `suffix`, where `s` ends with it.
pub open spec fn before_suffix(s: Seq<char>, suffix: Seq<char>) -> Option<Seq<char>> {
    if suffix.is_suffix_of(s) {
        Some(s.take(s.len() - suffix.len()))
    } else {
        None
    }
}

/// The text behind a prefix, or `None` where the text does not begin with it.
pub fn strip_prefix<'a>(s: &'a str, prefix: &str) -> (rest: Option<&'a str>)
    ensures
        match rest {
            Some(r) => behind_prefix(s@, prefix@) == Some(r@),
            None => behind_prefix(s@, prefix@) is None,
        },
{
    let n: usize = s.unicode_len();
    let k: usize = prefix.unicode_len();
    if k <= n && same_text(s.substring_char(0, k), prefix) {
        let rest = s.substring_char(k, n);
        assert(rest@ =~= s@.skip(k as int));
        Some(rest)
    } else {
        None
    }
}

/// The text before a suffix, or `None` where the text does not end with it.
pub fn strip_suffix<'a>(s: &'a str, suffix: &str) -> (rest: Option<&'a str>)
    ensures
        match rest {
            Some(r) => before_suffix(s@, suffix@) == Some(r@),
            None => before_suffix(s@, suffix@) is None,
        },
{
    let n: usize = s.unicode_len();
    let k: usize = suffix.unicode_len();
    if k <= n && same_text(s.substring_char(n - k, n), suffix) {
        let rest = s.substring_char(0, n - k);
        assert(rest@ =~= s@.take(n - k));
        Some(rest)
    } else {
        None
    }
}

/// Whether a text begins with a prefix.
pub fn starts_with(s: &str, prefix: &str) -> (starts: bool)
    ensures
        starts == prefix@.is_prefix_of(s@),
{
    strip_prefix(s, prefix).is_some()
}

/// `delimiter` stands in `s` from position `at` on.
pub open spec fn occurs_at(s: Seq<char>, delimiter: Seq<char>, at: int) -> bool {
    &&& 0 <= at
    &&& at + delimiter.len() <= s.len()
    &&& s.subrange(at, at + delimiter.len()) == delimiter
}

/// `at` is the first position of `s` from which on `delimiter` stands.
pub open spec fn first_occurs_at(s: Seq<char>, delimiter: Seq<char>, at: int) -> bool {
    &&& occurs_at(s, delimiter, at)
    &&& forall|j: int| 0 <= j < at ==> !occurs_at(s, delimiter, j)
}

/// What stands before and behind the first occurrence of `delimiter` in `s`.
pub open spec fn split_first(s: Seq<char>, delimiter: Seq<char>) -> Option<(Seq<char>, Seq<char>)> {
    if exists|at: int| first_occurs_at(s, delimiter, at) {
        let at = choose|at: int| first_occurs_at(s, delimiter, at);
        Some((s.take(at), s.skip(at + delimiter.len())))
    } else {
        None
    }
}

/// Splits a text at the first occurrence of a delimiter.
pub fn split_once<'a>(s: &'a str, delimiter: &str) -> (parts: Option<(&'a str, &'a str)>)
    ensures
        match parts {
            Some((before, behind)) => split_first(s@, delimiter@) == Some((before@, behind@)),
            None => split_first(s@, delimiter@) is None,
        },
{
    let n: usize = s.unicode_len();
    let k: usize = delimiter.unicode_len();
    if k > n {
        return None;
    }
    let mut i: usize = 0;
    loop
        invariant
            n == s@.len(),
            k == delimiter@.len(),
            k <= n,
            i <= n - k,
            forall|j: int| 0 <= j < i ==> !occurs_at(s@, delimiter@, j),
        decreases n - k - i,
    {
        if same_text(s.substring_char(i, i + k), delimiter) {
            let before = s.substring_char(0, i);
            let behind = s.substring_char(i + k, n);
            proof {
                assert(first_occurs_at(s@, delimiter@, i as int));
                let at = choose|at: int| first_occurs_at(s@, delimiter@, at);
                assert(at == i);
                assert(before@ =~= s@.take(at));
                assert(behind@ =~= s@.skip(at + delimiter@.len()));
            }
            return Some((before, behind));
        }
        if i == n - k {
            return None;
        }
        i = i + 1;
    }
}

/// The characters with Unicode's `White_Space` property.
pub open spec fn is_white_space(c: char) -> bool {
    let u = c as u32;
    ||| 0x9 <= u <= 0xd
    ||| u == 0x20
    ||| u == 0x85
    ||| u == 0xa0
    ||| u == 0x1680
    ||| 0x2000 <= u <= 0x200a
    ||| u == 0x2028
    ||| u == 0x2029
    ||| u == 0x202f
    ||| u == 0x205f
    ||| u == 0x3000
}

/// The words of a text: its longest runs of characters that are no white
/// space, in order. A character that is no white space goes on with the word
/// right before it or, where there is none, begins one.
pub open spec fn words(s: Seq<char>) -> Seq<Seq<char>>
    decreases s.len(),
{
    if s.len() == 0 {
        Seq::empty()
    } else {
        let before = words(s.drop_last());
        if is_white_space(s.last()) {
            before
        } else if s.len() >= 2 && !is_white_space(s[s.len() - 2]) {
            before.drop_last().push(before.last().push(s.last()))
        } else {
            before.push(seq![s.last()])
        }
    }
}

pub(crate) fn white_space(c: char) -> (yes: bool)
    ensures
        yes == is_white_space(c),
{
    let u: u32 = c as u32;
    (0x9 <= u && u <= 0xd) || u == 0x20 || u == 0x85 || u == 0xa0 || u == 0x1680
        || (0x2000 <= u && u <= 0x200a) || u == 0x2028 || u == 0x2029 || u == 0x202f
        || u == 0x205f || u == 0x3000
}

/// The pieces of a text between the occurrences of a character, in order.
pub open spec fn pieces(s: Seq<char>, delimiter: char) -> Seq<Seq<char>>
    decreases s.len(),
{
    if s.len() == 0 {
        seq![Seq::empty()]
    } else {
        let before = pieces(s.drop_last(), delimiter);
        if s.last() == delimiter {
            before.push(Seq::empty())
        } else {
            before.drop_last().push(before.last().push(s.last()))
        }
    }
}

/// All characters of a text are white space.
pub open spec fn is_blank(s: Seq<char>) -> bool {
    forall|i: int| 0 <= i < s.len() ==> is_white_space(#[trigger] s[i])
}

/// Without the white space around it, a text is a single character.
pub open spec fn trims_to(s: Seq<char>, c: char) -> bool {
    exists|i: int|
        0 <= i < s.len() && #[trigger] s[i] == c && is_blank(s.take(i)) && is_blank(s.skip(i + 1))
}

/// The texts that a vector of strings holds.
pub open spec fn texts(v: Seq<String>) -> Seq<Seq<char>> {
    v.map_values(|s: String| s@)
}

/// The words of a text, in order.
pub fn split_whitespace(s: &str) -> (parts: Vec<String>)
    ensures
        texts(parts@) == words(s@),
{
    let n: usize = s.unicode_len();
    let mut parts: Vec<String> = Vec::new();
    // Where the word that reaches up to the current position began.
    let mut open: Option<usize> = None;
    let mut i: usize = 0;
    assert(s@.take(0) =~= Seq::empty());
    assert(texts(parts@) =~= Seq::empty());
    while i < n
        invariant
            n == s@.len(),
            i <= n,
            match open {
                Some(from) => {
                    &&& from < i
                    &&& !is_white_space(s@[i - 1])
                    &&& words(s@.take(i as int)) == texts(parts@).push(
                        s@.subrange(from as int, i as int),
                    )
                },
                None => {
                    &&& i > 0 ==> is_white_space(s@[i - 1])
                    &&& words(s@.take(i as int)) == texts(parts@)
                },
            },
        decreases n - i,
    {
        let c: char = s.get_char(i);
        proof {
            assert(s@.take(i + 1).drop_last() =~= s@.take(i as int));
            assert(s@.take(i + 1).last() == c);
            if i >= 1 {
                assert(s@.take(i + 1)[i - 1] == s@[i - 1]);
            }
        }
        if white_space(c) {
            if let Some(from) = open {
                let ghost held = parts@;
                parts.push(s.substring_char(from, i).to_owned());
                assert(texts(parts@) =~= texts(held).push(s@.subrange(from as int, i as int)));
            }
            open = None;
        } else {
            match open {
                Some(from) => {
                    proof {
                        let before = words(s@.take(i as int));
                        assert(before.drop_last() =~= texts(parts@));
                        assert(s@.subrange(from as int, i as int).push(c) =~= s@.subrange(
                            from as int,
                            i + 1,
                        ));
                    }
                },
                None => {
                    assert(s@.subrange(i as int, i + 1) =~= seq![c]);
                    open = Some(i);
                },
            }
        }
        i = i + 1;
    }
    if let Some(from) = open {
        let ghost held = parts@;
        parts.push(s.substring_char(from, n).to_owned());
        assert(texts(parts@) =~= texts(held).push(s@.subrange(from as int, n as int)));
    }
    assert(s@.take(n as int) =~= s@);
    parts
}

/// The decimal digits of a number, without leading zeros.
pub open spec fn decimal_digits(n: nat) -> Seq<char>
    decreases n,
{
    if n < 10 {
        seq![((48 + n) as u8) as char]
    } else {
        decimal_digits(n / 10).push(((48 + n % 10) as u8) as char)
    }
}

fn digit(d: u64) -> (text: &'static str)
    requires
        d < 10,
    ensures
        text@ == seq![((48 + d) as u8) as char],
{
    proof {
        reveal_strlit("0");
        reveal_strlit("1");
        reveal_strlit("2");
        reveal_strlit("3");
        reveal_strlit("4");
        reveal_strlit("5");
        reveal_strlit("6");
        reveal_strlit("7");
        reveal_strlit("8");
        reveal_strlit("9");
    }
    match d {
        0 => "0",
        1 => "1",
        2 => "2",
        3 => "3",
        4 => "4",
        5 => "5",
        6 => "6",
        7 => "7",
        8 => "8",
        _ => "9",
    }
}

/// A number in decimal.
pub fn decimal(n: u64) -> (text: String)
    ensures
        text@ == decimal_digits(n as nat),
    decreases n,
{
    if n < 10 {
        digit(n).to_owned()
    } else {
        let mut text: String = decimal(n / 10);
        text.append(digit(n % 10));
        assert(text@ =~= decimal_digits(n as nat));
        text
    }
}

/// Two texts, one behind the other.
pub fn concat2(a: &str, b: &str) -> (text: String)
    ensures
        text@ == a@ + b@,
{
    let mut text: String = a.to_owned();
    text.append(b);
    text
}

/// Three texts, one behind the other.
pub fn concat3(a: &str, b: &str, c: &str) -> (text: String)
    ensures
        text@ == a@ + b@ + c@,
{
    let mut text: String = concat2(a, b);
    text.append(c);
    text
}

/// The text of an optional string.
pub open spec fn optional(text: Option<String>) -> Option<Seq<char>> {
    match text {
        Some(t) => Some(t@),
        None => None,
    }
}

/// The text of an optional string slice.
pub open spec fn optional_str(text: Option<&str>) -> Option<Seq<char>> {
    match text {
        Some(t) => Some(t@),
        None => None,
    }
}

/// A copy of an optional string.
pub fn clone_optional(text: &Option<String>) -> (copy: Option<String>)
    ensures
        copy == *text,
{
    match text {
        Some(t) => Some(t.clone()),
        None => None,
    }
}

/// A copy of a list of strings.
pub fn clone_texts(list: &Vec<String>) -> (copy: Vec<String>)
    ensures
        copy@ == list@,
{
    let mut copy: Vec<String> = Vec::new();
    let mut i: usize = 0;
    while i < list.len()
        invariant
            i <= list@.len(),
            copy@ =~= list@.take(i as int),
        decreases list@.len() - i,
    {
        copy.push(list[i].clone());
        i = i + 1;
    }
    assert(copy@ =~= list@);
    copy
}

/// What is left behind a prefix is what makes up the text together with it,
/// and there is such a rest exactly where the text begins with the prefix.
pub proof fn prefixes_come_off(s: Seq<char>, prefix: Seq<char>, rest: Seq<char>)
    ensures
        behind_prefix(s, prefix) == Some(rest) <==> s == prefix + rest,
        behind_prefix(s, prefix) is None ==> s != prefix + rest,
{
    if behind_prefix(s, prefix) == Some(rest) {
        assert(s =~= prefix + rest);
    }
    if s == prefix + rest {
        assert(prefix.is_prefix_of(s));
        assert(s.skip(prefix.len() as int) =~= rest);
    }
}

/// What is left before a suffix is what makes up the text together with it,
/// and there is such a rest exactly where the text ends with the suffix.
pub proof fn suffixes_come_off(s: Seq<char>, suffix: Seq<char>, rest: Seq<char>)
    ensures
        before_suffix(s, suffix) == Some(rest) <==> s == rest + suffix,
        before_suffix(s, suffix) is None ==> s != rest + suffix,
{
    if before_suffix(s, suffix) == Some(rest) {
        assert(s =~= rest + suffix);
    }
    if s == rest + suffix {
        assert(suffix.is_suffix_of(s)) by {
            assert(s.subrange(s.len() - suffix.len(), s.len() as int) =~= suffix);
        }
        assert(s.take(s.len() - suffix.len()) =~= rest);
    }
}

proof fn lemma_occurs(s: Seq<char>, delimiter: Seq<char>, a: Seq<char>, b: Seq<char>)
    requires
        s == a + delimiter + b,
    ensures
        occurs_at(s, delimiter, a.len() as int),
{
    assert(s.subrange(a.len() as int, (a.len() + delimiter.len()) as int) =~= delimiter);
}

/// The parts of a text make it up with the delimiter between them, and no
/// other such pair of parts begins with a shorter one. Where there are no
/// parts, the text does not hold the delimiter.
pub proof fn texts_are_split_at_the_first_delimiter(
    s: Seq<char>,
    delimiter: Seq<char>,
    a: Seq<char>,
    b: Seq<char>,
)
    ensures
        split_first(s, delimiter) == Some((a, b)) ==> s == a + delimiter + b,
        s == a + delimiter + b ==> (split_first(s, delimiter) matches Some((x, y)) && x.len()
            <= a.len() && (x.len() == a.len() ==> x == a && y == b)),
{
    if split_first(s, delimiter) == Some((a, b)) {
        let at = choose|at: int| first_occurs_at(s, delimiter, at);
        assert(s =~= a + delimiter + b);
    }
    if s == a + delimiter + b {
        lemma_occurs(s, delimiter, a, b);
        lemma_some_first(s, delimiter, a.len() as int);
        let at = choose|at: int| first_occurs_at(s, delimiter, at);
        assert(first_occurs_at(s, delimiter, at));
        if a.len() < at {
            assert(!occurs_at(s, delimiter, a.len() as int));
        }
        if at == a.len() {
            assert(s.take(at) =~= a);
            assert(s.skip(at + delimiter.len()) =~= b);
        }
    }
}

proof fn lemma_some_first(s: Seq<char>, delimiter: Seq<char>, at: int)
    requires
        occurs_at(s, delimiter, at),
    ensures
        exists|i: int| first_occurs_at(s, delimiter, i),
    decreases at,
{
    if exists|j: int| 0 <= j < at && occurs_at(s, delimiter, j) {
        let j = choose|j: int| 0 <= j < at && occurs_at(s, delimiter, j);
        lemma_some_first(s, delimiter, j);
    } else {
        assert(first_occurs_at(s, delimiter, at));
    }
}

/// The characters that count as white space, by their numbers.
pub proof fn white_space_is_that_of_unicode(c: char)
    ensures
        is_white_space(c) <==> {
            ||| c as u32 == 0x20
            ||| 0x9 <= c as u32 && c as u32 <= 0xd
            ||| c as u32 == 0x85
            ||| c as u32 == 0xa0
            ||| c as u32 == 0x1680
            ||| 0x2000 <= c as u32 && c as u32 <= 0x200a
            ||| c as u32 == 0x2028
            ||| c as u32 == 0x2029
            ||| c as u32 == 0x202f
            ||| c as u32 == 0x205f
            ||| c as u32 == 0x3000
        },
{
}

/// White space parts words: the words of two texts with white space between
/// them are those of the first and then those of the second.
pub proof fn white_space_parts_words(a: Seq<char>, c: char, b: Seq<char>)
    requires
        is_white_space(c),
    ensures
        words(a.push(c) + b) == words(a) + words(b),
    decreases b.len(),
{
    let whole = a.push(c) + b;
    if b.len() == 0 {
        assert(whole =~= a.push(c));
        assert(a.push(c).drop_last() =~= a);
        assert(words(a) + words(b) =~= words(a));
    } else {
        let rest = b.drop_last();
        white_space_parts_words(a, c, rest);
        assert(whole.drop_last() =~= a.push(c) + rest);
        assert(whole.last() == b.last());
        if rest.len() > 0 {
            assert(whole[whole.len() - 2] == b[b.len() - 2]);
        } else {
            assert(whole[whole.len() - 2] == c);
        }
        if !is_white_space(b.last()) && b.len() >= 2 && !is_white_space(b[b.len() - 2]) {
            lemma_has_words(rest);
            assert(words(whole) =~= words(a) + words(b));
        } else {
            assert(words(whole) =~= words(a) + words(b));
        }
    }
}

/// A text that does not end in white space has a word.
proof fn lemma_has_words(s: Seq<char>)
    requires
        s.len() > 0,
        !is_white_space(s.last()),
    ensures
        words(s).len() > 0,
{
}

/// A text without white space is one word, and nothing has no words.
pub proof fn texts_without_white_space_are_words(s: Seq<char>)
    requires
        forall|i: int| 0 <= i < s.len() ==> !is_white_space(#[trigger] s[i]),
    ensures
        s.len() == 0 ==> words(s).len() == 0,
        s.len() > 0 ==> words(s) == seq![s],
    decreases s.len(),
{
    if s.len() > 0 {
        let rest = s.drop_last();
        assert forall|i: int| 0 <= i < rest.len() implies !is_white_space(#[trigger] rest[i]) by {
            assert(rest[i] == s[i]);
        }
        texts_without_white_space_are_words(rest);
        assert(s.last() == s[s.len() - 1]);
        if s.len() >= 2 {
            assert(rest.push(s.last()) =~= s);
            assert(words(s) =~= seq![s]);
        } else {
            assert(words(rest) =~= Seq::empty());
            assert(seq![s.last()] =~= s);
            assert(words(s) =~= seq![s]);
        }
    }
}

/// A delimiter parts pieces: the pieces of two texts with one between them are
/// those of the first and then those of the second. A text without one is one
/// piece.
pub proof fn delimiters_part_pieces(a: Seq<char>, delimiter: char, b: Seq<char>)
    ensures
        pieces(a.push(delimiter) + b, delimiter) == pieces(a, delimiter) + pieces(b, delimiter),
        !a.contains(delimiter) ==> pieces(a, delimiter) == seq![a],
        pieces(a, delimiter).len() > 0,
{
    lemma_pieces_join(a, delimiter, b);
    lemma_whole_piece(a, delimiter);
}

proof fn lemma_pieces_join(a: Seq<char>, delimiter: char, b: Seq<char>)
    ensures
        pieces(a.push(delimiter) + b, delimiter) == pieces(a, delimiter) + pieces(b, delimiter),
    decreases b.len(),
{
    let whole = a.push(delimiter) + b;
    if b.len() == 0 {
        assert(whole =~= a.push(delimiter));
        assert(a.push(delimiter).drop_last() =~= a);
        assert(pieces(whole, delimiter) =~= pieces(a, delimiter) + pieces(b, delimiter));
    } else {
        let rest = b.drop_last();
        lemma_pieces_join(a, delimiter, rest);
        lemma_whole_piece(rest, delimiter);
        assert(whole.drop_last() =~= a.push(delimiter) + rest);
        assert(whole.last() == b.last());
        assert(pieces(whole, delimiter) =~= pieces(a, delimiter) + pieces(b, delimiter));
    }
}

proof fn lemma_whole_piece(a: Seq<char>, delimiter: char)
    ensures
        !a.contains(delimiter) ==> pieces(a, delimiter) == seq![a],
        pieces(a, delimiter).len() > 0,
    decreases a.len(),
{
    if a.len() > 0 {
        let rest = a.drop_last();
        lemma_whole_piece(rest, delimiter);
        if !a.contains(delimiter) {
            assert(a[a.len() - 1] == a.last());
            assert(!rest.contains(delimiter)) by {
                if rest.contains(delimiter) {
                    let i = choose|i: int| 0 <= i < rest.len() && rest[i] == delimiter;
                    assert(a[i] == delimiter);
                }
            }
            assert(rest.push(a.last()) =~= a);
            assert(pieces(a, delimiter) =~= seq![a]);
        }
    } else {
        assert(a =~= Seq::empty());
    }
}

/// A text is a single character apart from white space exactly where white
/// space, that character and white space make it up.
pub proof fn trimming_leaves_what_is_no_white_space(s: Seq<char>, c: char)
    ensures
        trims_to(s, c) <==> exists|i: int|
            0 <= i < s.len() && #[trigger] s[i] == c && (forall|j: int|
                0 <= j < s.len() && j != i ==> is_white_space(#[trigger] s[j])),
{
    if trims_to(s, c) {
        let i = choose|i: int|
            0 <= i < s.len() && #[trigger] s[i] == c && is_blank(s.take(i)) && is_blank(
                s.skip(i + 1),
            );
        assert forall|j: int| 0 <= j < s.len() && j != i implies is_white_space(
            #[trigger] s[j],
        ) by {
            if j < i {
                assert(s.take(i)[j] == s[j]);
            } else {
                assert(s.skip(i + 1)[j - i - 1] == s[j]);
            }
        }
        assert(s[i] == c);
    }
    if exists|i: int|
        0 <= i < s.len() && #[trigger] s[i] == c && (forall|j: int|
            0 <= j < s.len() && j != i ==> is_white_space(#[trigger] s[j])) {
        let i = choose|i: int|
            0 <= i < s.len() && #[trigger] s[i] == c && (forall|j: int|
                0 <= j < s.len() && j != i ==> is_white_space(#[trigger] s[j]));
        assert(is_blank(s.take(i)));
        assert(is_blank(s.skip(i + 1)));
        assert(s[i] == c);
    }
}

/// A number below ten is one digit, and each further digit multiplies what
/// stands before it by ten.
pub proof fn decimals_are_read_digit_by_digit(n: nat, d: nat)
    requires
        d < 10,
    ensures
        decimal_digits(d) == seq![(('0' as u8 + d) as u8) as char],
        n > 0 ==> decimal_digits(10 * n + d) == decimal_digits(n).push(
            (('0' as u8 + d) as u8) as char,
        ),
{
    if n > 0 {
        assert((10 * n + d) / 10 == n);
        assert((10 * n + d) % 10 == d);
    }
}

/// The texts of a list are those of its strings, in order.
pub proof fn texts_keep_order(list: Seq<String>, i: int)
    requires
        0 <= i < list.len(),
    ensures
        texts(list).len() == list.len(),
        texts(list)[i] == list[i]@,
{
}

/// The text of an optional string is that of the string.
pub proof fn optional_texts_are_texts(text: Option<String>, slice: Option<&str>)
    ensures
        text is None <==> optional(text) is None,
        text matches Some(t) ==> optional(text) == Some(t@),
        slice is None <==> optional_str(slice) is None,
        slice matches Some(t) ==> optional_str(slice) == Some(t@),
{
}

} // verus!
