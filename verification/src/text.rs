//! Text: the few string operations that the rest of the crate is built on.
use vstd::prelude::*;

verus! {

/// The characters of a string.
pub fn chars_of(s: &str) -> (chars: Vec<char>)
    ensures
        chars@ == s@,
{
    let mut chars: Vec<char> = Vec::new();
    for c in it: s.chars()
        invariant
            chars@ == it.seq().take(it.index() as int),
            it.seq() == s@,
    {
        chars.push(c);
        assert(it.seq().take(it.index() + 1) =~= it.seq().take(it.index() as int).push(c));
    }
    assert(s@.take(s@.len() as int) =~= s@);
    chars
}

/// The characters that separate words: those with Unicode's `White_Space` property.
pub open spec fn white_space(c: char) -> bool {
    ||| 0x09 <= c as u32 <= 0x0D
    ||| c as u32 == 0x20
    ||| c as u32 == 0x85
    ||| c as u32 == 0xA0
    ||| c as u32 == 0x1680
    ||| 0x2000 <= c as u32 <= 0x200A
    ||| 0x2028 <= c as u32 <= 0x2029
    ||| c as u32 == 0x202F
    ||| c as u32 == 0x205F
    ||| c as u32 == 0x3000
}

pub fn is_white_space(c: char) -> (yes: bool)
    ensures
        yes == white_space(c),
{
    let v: u32 = c as u32;
    (0x09 <= v && v <= 0x0D) || v == 0x20 || v == 0x85 || v == 0xA0 || v == 0x1680 || (0x2000 <= v
        && v <= 0x200A) || v == 0x2028 || v == 0x2029 || v == 0x202F || v == 0x205F || v == 0x3000
}

/// A text without the white space that it begins with.
pub open spec fn trim_start(s: Seq<char>) -> Seq<char>
    decreases s.len(),
{
    if s.len() > 0 && white_space(s[0]) {
        trim_start(s.drop_first())
    } else {
        s
    }
}

/// A text without the white space that it ends with.
pub open spec fn trim_end(s: Seq<char>) -> Seq<char>
    decreases s.len(),
{
    if s.len() > 0 && white_space(s.last()) {
        trim_end(s.drop_last())
    } else {
        s
    }
}

/// A text without the white space at its two ends.
pub open spec fn trim(s: Seq<char>) -> Seq<char> {
    trim_end(trim_start(s))
}

/// Where the text from `from` on begins, past its white space.
pub fn skip_white(chars: &Vec<char>, from: usize) -> (at: usize)
    requires
        from <= chars@.len(),
    ensures
        from <= at <= chars@.len(),
        chars@.skip(at as int) == trim_start(chars@.skip(from as int)),
        at < chars@.len() ==> !white_space(chars@[at as int]),
        forall|i: int| from <= i < at ==> white_space(#[trigger] chars@[i]),
{
    let mut at: usize = from;
    while at < chars.len() && is_white_space(chars[at])
        invariant
            from <= at <= chars@.len(),
            trim_start(chars@.skip(from as int)) == trim_start(chars@.skip(at as int)),
            forall|i: int| from <= i < at ==> white_space(#[trigger] chars@[i]),
        decreases chars.len() - at,
    {
        assert(chars@.skip(at as int).drop_first() =~= chars@.skip(at + 1));
        at = at + 1;
    }
    at
}

/// The part of a text that trimming leaves, as a range.
pub fn trim_range(chars: &Vec<char>) -> (range: (usize, usize))
    ensures
        range.0 <= range.1 <= chars@.len(),
        chars@.subrange(range.0 as int, range.1 as int) == trim(chars@),
{
    let start: usize = skip_white(chars, 0);
    let mut end: usize = chars.len();
    proof {
        assert(chars@.skip(0) =~= chars@);
        assert(chars@.subrange(start as int, end as int) =~= chars@.skip(start as int));
    }
    while end > start && is_white_space(chars[end - 1])
        invariant
            start <= end <= chars@.len(),
            trim_end(chars@.subrange(start as int, end as int)) == trim(chars@),
        decreases end - start,
    {
        assert(chars@.subrange(start as int, end as int).drop_last() =~= chars@.subrange(
            start as int,
            end - 1,
        ));
        end = end - 1;
    }
    (start, end)
}

/// A text without the copies of `c` that it begins with.
pub open spec fn strip_leading(s: Seq<char>, c: char) -> Seq<char>
    decreases s.len(),
{
    if s.len() > 0 && s[0] == c {
        strip_leading(s.drop_first(), c)
    } else {
        s
    }
}

/// A text without the copies of `suffix` that it ends with.
pub open spec fn strip_trailing(s: Seq<char>, suffix: Seq<char>) -> Seq<char>
    decreases s.len(),
{
    if suffix.len() > 0 && suffix.is_suffix_of(s) {
        strip_trailing(s.take(s.len() - suffix.len()), suffix)
    } else {
        s
    }
}

/// Whether `part` stands in `s` from position `at` on.
pub open spec fn stands_at(s: Seq<char>, part: Seq<char>, at: int) -> bool {
    &&& 0 <= at <= s.len() - part.len()
    &&& s.subrange(at, at + part.len()) == part
}

/// Whether `part` stands somewhere in `s`.
pub open spec fn contains_text(s: Seq<char>, part: Seq<char>) -> bool {
    exists|at: int| stands_at(s, part, at)
}

/// Whether `part` stands in `chars` from position `at` on.
pub fn matches_at(chars: &Vec<char>, part: &Vec<char>, at: usize) -> (yes: bool)
    ensures
        yes == stands_at(chars@, part@, at as int),
{
    if part.len() > chars.len() || at > chars.len() - part.len() {
        return false;
    }
    let mut i: usize = 0;
    while i < part.len()
        invariant
            i <= part@.len(),
            at + part@.len() <= chars.len(),
            forall|k: int| 0 <= k < i ==> chars@[at + k] == #[trigger] part@[k],
        decreases part.len() - i,
    {
        if chars[at + i] != part[i] {
            assert(chars@.subrange(at as int, at + part@.len())[i as int] == chars@[at + i]);
            return false;
        }
        i = i + 1;
    }
    assert(chars@.subrange(at as int, at + part@.len()) =~= part@);
    true
}

/// Whether one string stands somewhere in another.
pub fn str_contains(s: &str, part: &str) -> (yes: bool)
    ensures
        yes == contains_text(s@, part@),
{
    let chars = chars_of(s);
    let needle = chars_of(part);
    if needle.len() > chars.len() {
        return false;
    }
    let mut at: usize = 0;
    let last: usize = chars.len() - needle.len();
    while at <= last
        invariant
            chars@ == s@,
            needle@ == part@,
            last == chars@.len() - needle@.len(),
            at <= last + 1,
            chars@.len() <= usize::MAX,
            forall|k: int| 0 <= k < at ==> !stands_at(s@, part@, k),
        decreases last + 1 - at,
    {
        if matches_at(&chars, &needle, at) {
            return true;
        }
        if at == last {
            return false;
        }
        at = at + 1;
    }
    false
}

/// Whether a string begins with another.
pub fn str_starts_with(s: &str, prefix: &str) -> (yes: bool)
    ensures
        yes == prefix@.is_prefix_of(s@),
{
    let chars = chars_of(s);
    let start = chars_of(prefix);
    let yes = matches_at(&chars, &start, 0);
    proof {
        if prefix@.len() <= s@.len() {
            assert(s@.subrange(0, 0int + prefix@.len()) =~= s@.subrange(0, prefix@.len() as int));
        }
    }
    yes
}

/// Whether a string ends with another.
pub fn str_ends_with(s: &str, suffix: &str) -> (yes: bool)
    ensures
        yes == suffix@.is_suffix_of(s@),
{
    let chars = chars_of(s);
    let end = chars_of(suffix);
    if end.len() > chars.len() {
        return false;
    }
    let yes = matches_at(&chars, &end, chars.len() - end.len());
    assert(s@.len() - suffix@.len() + suffix@.len() == s@.len());
    yes
}

/// Whether two strings are the same text.
pub fn str_eq(a: &str, b: &str) -> (yes: bool)
    ensures
        yes == (a@ == b@),
{
    let left = chars_of(a);
    let right = chars_of(b);
    if left.len() != right.len() {
        return false;
    }
    let yes = matches_at(&left, &right, 0);
    assert(left@.subrange(0, 0int + right@.len()) =~= left@);
    yes
}

/// The text before the first `c`, or the whole text if `c` is not in it.
pub open spec fn until(s: Seq<char>, c: char) -> Seq<char>
    decreases s.len(),
{
    if s.len() == 0 || s[0] == c {
        Seq::empty()
    } else {
        seq![s[0]] + until(s.drop_first(), c)
    }
}

/// The text after the first `c`, if `c` is in it.
pub open spec fn after(s: Seq<char>, c: char) -> Option<Seq<char>>
    decreases s.len(),
{
    if s.len() == 0 {
        None
    } else if s[0] == c {
        Some(s.drop_first())
    } else {
        after(s.drop_first(), c)
    }
}

/// Where the first `c` stands at or behind `from`; the length of the text if there is none.
pub fn find_char(chars: &Vec<char>, from: usize, c: char) -> (at: usize)
    requires
        from <= chars@.len(),
    ensures
        from <= at <= chars@.len(),
        chars@.subrange(from as int, at as int) == until(chars@.skip(from as int), c),
        after(chars@.skip(from as int), c) == (if at < chars@.len() {
            Some(chars@.skip(at + 1))
        } else {
            None
        }),
{
    let mut at: usize = from;
    assert(chars@.subrange(from as int, from as int) =~= Seq::empty());
    while at < chars.len() && chars[at] != c
        invariant
            from <= at <= chars@.len(),
            until(chars@.skip(from as int), c) == chars@.subrange(from as int, at as int) + until(
                chars@.skip(at as int),
                c,
            ),
            after(chars@.skip(from as int), c) == after(chars@.skip(at as int), c),
        decreases chars.len() - at,
    {
        proof {
            assert(chars@.skip(at as int).drop_first() =~= chars@.skip(at + 1));
            assert(chars@.subrange(from as int, at + 1) =~= chars@.subrange(
                from as int,
                at as int,
            ).push(chars@[at as int]));
            assert(chars@.subrange(from as int, at + 1) + until(chars@.skip(at + 1), c)
                =~= chars@.subrange(from as int, at as int) + until(chars@.skip(at as int), c));
        }
        at = at + 1;
    }
    proof {
        if at < chars@.len() {
            assert(chars@.skip(at as int).drop_first() =~= chars@.skip(at + 1));
        }
        assert(until(chars@.skip(at as int), c) =~= Seq::empty());
    }
    at
}

/// The text before the first white space, or the whole text if there is none in it.
pub open spec fn until_white(s: Seq<char>) -> Seq<char>
    decreases s.len(),
{
    if s.len() == 0 || white_space(s[0]) {
        Seq::empty()
    } else {
        seq![s[0]] + until_white(s.drop_first())
    }
}

/// The first word of a text: empty if it has none.
pub open spec fn first_word(s: Seq<char>) -> Seq<char> {
    until_white(trim_start(s))
}

/// A text without its first word and what stands before it.
pub open spec fn past_word(s: Seq<char>) -> Seq<char> {
    trim_start(s).skip(first_word(s).len() as int)
}

/// Where the first word of the text from `from` on begins and ends.
pub fn word_range(chars: &Vec<char>, from: usize) -> (range: (usize, usize))
    requires
        from <= chars@.len(),
    ensures
        from <= range.0 <= range.1 <= chars@.len(),
        chars@.subrange(range.0 as int, range.1 as int) == first_word(chars@.skip(from as int)),
        chars@.skip(range.1 as int) == past_word(chars@.skip(from as int)),
{
    let start: usize = skip_white(chars, from);
    let mut end: usize = start;
    assert(chars@.subrange(start as int, start as int) =~= Seq::empty());
    while end < chars.len() && !is_white_space(chars[end])
        invariant
            start <= end <= chars@.len(),
            until_white(chars@.skip(start as int)) == chars@.subrange(start as int, end as int)
                + until_white(chars@.skip(end as int)),
        decreases chars.len() - end,
    {
        proof {
            assert(chars@.skip(end as int).drop_first() =~= chars@.skip(end + 1));
            assert(chars@.subrange(start as int, end + 1) =~= chars@.subrange(
                start as int,
                end as int,
            ).push(chars@[end as int]));
            assert(chars@.subrange(start as int, end + 1) + until_white(chars@.skip(end + 1))
                =~= chars@.subrange(start as int, end as int) + until_white(
                chars@.skip(end as int),
            ));
        }
        end = end + 1;
    }
    proof {
        assert(until_white(chars@.skip(end as int)) =~= Seq::empty());
        assert(chars@.skip(start as int).skip(end - start) =~= chars@.skip(end as int));
    }
    (start, end)
}

/// A piece of a string.
pub fn piece(s: &str, from: usize, to: usize) -> (out: String)
    requires
        from <= to <= s@.len(),
    ensures
        out@ == s@.subrange(from as int, to as int),
{
    s.substring_char(from, to).to_owned()
}

/// The character of a decimal digit.
pub open spec fn digit_char(digit: nat) -> char {
    "0123456789"@[digit as int]
}

/// A number in decimal, without leading zeros.
pub open spec fn decimal(n: nat) -> Seq<char>
    decreases n,
{
    if n < 10 {
        seq![digit_char(n)]
    } else {
        decimal(n / 10).push(digit_char(n % 10))
    }
}

/// A number in decimal, without leading zeros.
pub fn decimal_of(n: u64) -> (out: String)
    ensures
        out@ == decimal(n as nat),
    decreases n,
{
    let digits = "0123456789";
    proof {
        reveal_strlit("0123456789");
    }
    let low: usize = (n % 10) as usize;
    let digit = digits.substring_char(low, low + 1);
    assert(digit@ =~= seq![digit_char(n as nat % 10)]);
    let mut out = if n < 10 {
        String::new()
    } else {
        decimal_of(n / 10)
    };
    out.append(digit);
    assert(out@ =~= decimal(n as nat));
    out
}

/// A text with every `from` in it turned into `to`.
pub open spec fn replaced(s: Seq<char>, from: char, to: char) -> Seq<char> {
    s.map_values(
        |c: char|
            if c == from {
                to
            } else {
                c
            },
    )
}

/// A string with every double quote in it turned into an apostrophe.
pub fn without_quotes(s: &str) -> (out: String)
    ensures
        out@ == replaced(s@, '"', '\''),
{
    let chars = chars_of(s);
    let mut out = String::new();
    let mut start: usize = 0;
    let mut i: usize = 0;
    proof {
        reveal_strlit("'");
    }
    while i < chars.len()
        invariant
            chars@ == s@,
            start <= i <= chars@.len(),
            "'"@ == seq!['\''],
            out@ == replaced(s@.take(start as int), '"', '\''),
            forall|k: int| start <= k < i ==> #[trigger] s@[k] != '"',
        decreases chars.len() - i,
    {
        if chars[i] == '"' {
            out.append(s.substring_char(start, i));
            out.append("'");
            assert(out@ =~= replaced(s@.take(i + 1), '"', '\''));
            start = i + 1;
        }
        i = i + 1;
    }
    out.append(s.substring_char(start, i));
    assert(out@ =~= replaced(s@, '"', '\''));
    out
}

/// Where the text up to `end` ends once the copies of `suffix` at its end are taken off.
pub fn strip_end(chars: &Vec<char>, end: usize, suffix: &Vec<char>) -> (at: usize)
    requires
        end <= chars@.len(),
        suffix@.len() > 0,
    ensures
        at <= end,
        chars@.take(at as int) == strip_trailing(chars@.take(end as int), suffix@),
{
    let mut at: usize = end;
    while at >= suffix.len() && matches_at(chars, suffix, at - suffix.len())
        invariant
            at <= end <= chars@.len(),
            suffix@.len() > 0,
            strip_trailing(chars@.take(at as int), suffix@) == strip_trailing(
                chars@.take(end as int),
                suffix@,
            ),
        decreases at,
    {
        proof {
            let text = chars@.take(at as int);
            let rest = at - suffix@.len();
            assert(rest + suffix@.len() == at);
            assert(text.subrange(rest, at as int) =~= chars@.subrange(rest, at as int));
            assert(suffix@.is_suffix_of(text));
            assert(text.take(rest) =~= chars@.take(rest));
        }
        at = at - suffix.len();
    }
    proof {
        let text = chars@.take(at as int);
        if suffix@.is_suffix_of(text) {
            let rest = at - suffix@.len();
            assert(text.subrange(rest, at as int) =~= chars@.subrange(rest, at as int));
            assert(rest + suffix@.len() == at);
            assert(stands_at(chars@, suffix@, rest));
        }
    }
    at
}

/// Trimming takes off all white space at the two ends and nothing else.
pub proof fn law_trim_leaves_what_is_between(before: Seq<char>, text: Seq<char>, behind: Seq<char>)
    requires
        forall|i: int| 0 <= i < before.len() ==> white_space(#[trigger] before[i]),
        forall|i: int| 0 <= i < behind.len() ==> white_space(#[trigger] behind[i]),
        text.len() > 0 ==> !white_space(text[0]) && !white_space(text.last()),
        text.len() == 0 ==> behind.len() == 0,
    ensures
        trim(before + text + behind) == text,
    decreases before.len() + behind.len(),
{
    let whole = before + text + behind;
    if before.len() > 0 {
        assert(whole[0] == before[0]);
        assert(whole.drop_first() =~= before.drop_first() + text + behind);
        law_trim_leaves_what_is_between(before.drop_first(), text, behind);
    } else if behind.len() > 0 {
        assert(whole[0] == text[0]);
        assert(whole.last() == behind.last());
        assert(whole.drop_last() =~= before + text + behind.drop_last());
        law_trim_leaves_what_is_between(before, text, behind.drop_last());
        assert(whole.drop_last()[0] == text[0]);
        assert(trim_start(whole.drop_last()) == whole.drop_last());
    } else {
        assert(whole =~= text);
    }
}

/// Nothing is left of a text exactly if it is all white space.
pub proof fn law_trim_of_a_blank_text(s: Seq<char>)
    ensures
        trim(s).len() == 0 <==> (forall|i: int| 0 <= i < s.len() ==> white_space(#[trigger] s[i])),
    decreases s.len(),
{
    if s.len() > 0 {
        if white_space(s[0]) {
            law_trim_of_a_blank_text(s.drop_first());
            assert forall|i: int| 0 <= i < s.len() && trim(s).len() == 0 implies white_space(
                #[trigger] s[i],
            ) by {
                if i > 0 {
                    assert(s.drop_first()[i - 1] == s[i]);
                }
            }
        } else {
            lemma_trim_end_keeps_more(s);
        }
    }
}

/// What does not begin with white space does not vanish when its end is trimmed.
proof fn lemma_trim_end_keeps_more(s: Seq<char>)
    requires
        s.len() > 0,
        !white_space(s[0]),
    ensures
        trim_end(s).len() > 0,
    decreases s.len(),
{
    if white_space(s.last()) {
        lemma_trim_end_keeps_more(s.drop_last());
    }
}

/// A character splits a text where it first stands: what is before it and what is behind it, joined
/// by it, are the text again. Where it does not stand, all of the text is before it.
pub proof fn law_split_at_a_character(before: Seq<char>, c: char, behind: Seq<char>)
    requires
        !before.contains(c),
    ensures
        until(before + seq![c] + behind, c) == before,
        after(before + seq![c] + behind, c) == Some(behind),
        until(before, c) == before,
        after(before, c) is None,
    decreases before.len(),
{
    let whole = before + seq![c] + behind;
    if before.len() > 0 {
        let rest = before.drop_first();
        assert(before.contains(before[0]));
        assert forall|i: int| 0 <= i < rest.len() implies rest[i] != c by {
            assert(before.contains(before[i + 1]));
        }
        law_split_at_a_character(rest, c, behind);
        assert(whole[0] == before[0]);
        assert(whole.drop_first() =~= rest + seq![c] + behind);
        assert(seq![before[0]] + rest =~= before);
    } else {
        assert(whole[0] == c);
        assert(whole.drop_first() =~= behind);
        assert(before =~= Seq::empty());
    }
}

/// The first word of a text is what stands behind the white space in front, up to the next white
/// space, and the rest begins there.
pub proof fn law_first_word(before: Seq<char>, word: Seq<char>, rest: Seq<char>)
    requires
        forall|i: int| 0 <= i < before.len() ==> white_space(#[trigger] before[i]),
        forall|i: int| 0 <= i < word.len() ==> !white_space(#[trigger] word[i]),
        rest.len() > 0 ==> white_space(rest[0]),
        word.len() == 0 ==> rest.len() == 0,
    ensures
        first_word(before + word + rest) == word,
        past_word(before + word + rest) == rest,
    decreases before.len() + word.len(),
{
    let whole = before + word + rest;
    if before.len() > 0 {
        assert(whole[0] == before[0]);
        assert(whole.drop_first() =~= before.drop_first() + word + rest);
        law_first_word(before.drop_first(), word, rest);
    } else {
        assert(whole =~= word + rest);
        if word.len() > 0 {
            assert(whole[0] == word[0]);
            lemma_until_white(word, rest);
            assert((word + rest).skip(word.len() as int) =~= rest);
        } else {
            assert(whole =~= Seq::empty());
            assert(whole.skip(0) =~= rest);
        }
    }
}

proof fn lemma_until_white(word: Seq<char>, rest: Seq<char>)
    requires
        forall|i: int| 0 <= i < word.len() ==> !white_space(#[trigger] word[i]),
        rest.len() > 0 ==> white_space(rest[0]),
    ensures
        until_white(word + rest) == word,
    decreases word.len(),
{
    let whole = word + rest;
    if word.len() > 0 {
        assert(whole[0] == word[0]);
        assert(whole.drop_first() =~= word.drop_first() + rest);
        lemma_until_white(word.drop_first(), rest);
        assert(seq![word[0]] + word.drop_first() =~= word);
    } else {
        assert(whole =~= rest);
        assert(word =~= Seq::empty());
    }
}

/// Every copy of a character in front of a text goes, and nothing else.
pub proof fn law_strip_leading(s: Seq<char>, c: char)
    ensures
        strip_leading(seq![c] + s, c) == strip_leading(s, c),
        s.len() == 0 || s[0] != c ==> strip_leading(s, c) == s,
{
    assert((seq![c] + s).drop_first() =~= s);
}

/// Every copy of a suffix at the end of a text goes, and nothing else.
pub proof fn law_strip_trailing(s: Seq<char>, suffix: Seq<char>)
    requires
        suffix.len() > 0,
    ensures
        strip_trailing(s + suffix, suffix) == strip_trailing(s, suffix),
        !suffix.is_suffix_of(s) ==> strip_trailing(s, suffix) == s,
{
    let whole = s + suffix;
    assert(whole.subrange(whole.len() - suffix.len(), whole.len() as int) =~= suffix);
    assert(whole.take(whole.len() - suffix.len()) =~= s);
}

/// A text stands in another exactly if the other is it with something before it and something
/// behind it.
pub proof fn law_contains_text(s: Seq<char>, before: Seq<char>, part: Seq<char>, behind: Seq<char>)
    ensures
        contains_text(before + part + behind, part),
        contains_text(s, part) ==> exists|a: Seq<char>, b: Seq<char>| s == #[trigger] (a + part + b),
{
    let whole = before + part + behind;
    let at = before.len() as int;
    assert(whole.subrange(at, at + part.len()) =~= part);
    assert(stands_at(whole, part, at));
    if contains_text(s, part) {
        let at = choose|at: int| stands_at(s, part, at);
        let a = s.take(at);
        let b = s.skip(at + part.len());
        assert(s =~= a + part + b);
    }
}

/// A number in decimal: ten times it and a digit more is written by one more digit behind it.
pub proof fn law_decimal_digits(n: nat, digit: nat)
    requires
        digit < 10,
    ensures
        decimal(digit).len() == 1,
        decimal(digit)[0] as u32 == 48 + digit,
        n > 0 ==> decimal(10 * n + digit) == decimal(n) + decimal(digit),
{
    reveal_strlit("0123456789");
    assert(decimal(digit) =~= seq![digit_char(digit)]);
    if n > 0 {
        let m = 10 * n + digit;
        assert(m / 10 == n && m % 10 == digit);
        assert(decimal(n).push(digit_char(digit)) =~= decimal(n) + decimal(digit));
    }
}

/// A character is replaced wherever it stands, and no other is touched.
pub proof fn law_replaced(s: Seq<char>, from: char, to: char, i: int)
    requires
        0 <= i < s.len(),
    ensures
        replaced(s, from, to).len() == s.len(),
        s[i] == from ==> replaced(s, from, to)[i] == to,
        s[i] != from ==> replaced(s, from, to)[i] == s[i],
{
}

} // verus!
