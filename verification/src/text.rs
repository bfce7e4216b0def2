//! Text: trimming, searching, and numbers in decimal.

use vstd::prelude::*;

verus! {

/// `String::push` appends one character.
pub assume_specification[ String::push ](s: &mut String, c: char)
    ensures
        final(s)@ == old(s)@.push(c),
;

/// Whether Unicode counts the character as white space.
pub open spec fn is_white(c: char) -> bool {
    let n = c as u32;
    ||| 9 <= n <= 13
    ||| n == 0x20
    ||| n == 0x85
    ||| n == 0xa0
    ||| n == 0x1680
    ||| 0x2000 <= n <= 0x200a
    ||| n == 0x2028
    ||| n == 0x2029
    ||| n == 0x202f
    ||| n == 0x205f
    ||| n == 0x3000
}

/// A text without the white space at its end.
pub open spec fn trimmed_end(s: Seq<char>) -> Seq<char>
    decreases s.len(),
{
    if s.len() > 0 && is_white(s.last()) {
        trimmed_end(s.drop_last())
    } else {
        s
    }
}

/// A text without the white space at its front.
pub open spec fn trimmed_start(s: Seq<char>) -> Seq<char>
    decreases s.len(),
{
    if s.len() > 0 && is_white(s[0]) {
        trimmed_start(s.drop_first())
    } else {
        s
    }
}

/// A text without the white space around it.
pub open spec fn trimmed(s: Seq<char>) -> Seq<char> {
    trimmed_end(trimmed_start(s))
}

/// A text without the slashes at its end.
pub open spec fn without_slashes(s: Seq<char>) -> Seq<char>
    decreases s.len(),
{
    if s.len() > 0 && s.last() == '/' {
        without_slashes(s.drop_last())
    } else {
        s
    }
}

/// A character with the capitals of ASCII made small.
pub open spec fn lower(c: char) -> char {
    if 'A' <= c && c <= 'Z' {
        (c as u32 + 32) as char
    } else {
        c
    }
}

/// A text with the capitals of ASCII made small.
pub open spec fn lowered(s: Seq<char>) -> Seq<char> {
    s.map_values(|c: char| lower(c))
}

/// Whether `part` occurs in `s` at `at`.
pub open spec fn occurs_at(s: Seq<char>, part: Seq<char>, at: int) -> bool {
    0 <= at && at + part.len() <= s.len() && s.subrange(at, at + part.len() as int) == part
}

/// Whether `part` occurs in `s`.
pub open spec fn occurs(s: Seq<char>, part: Seq<char>) -> bool {
    exists|at: int| #[trigger] occurs_at(s, part, at)
}

/// The characters of a text.
pub fn characters(s: &str) -> (chars: Vec<char>)
    ensures
        chars@ == s@,
{
    let mut chars: Vec<char> = Vec::new();
    for c in it: s.chars()
        invariant
            it.seq() == s@,
            chars@ == s@.take(it.index() as int),
    {
        chars.push(c);
        assert(s@.take(it.index() as int + 1) =~= s@.take(it.index() as int).push(c));
    }
    assert(s@.take(s@.len() as int) =~= s@);
    chars
}

/// The text of characters `from` to `to`.
pub fn text_of(chars: &Vec<char>, from: usize, to: usize) -> (s: String)
    requires
        from <= to <= chars@.len(),
    ensures
        s@ == chars@.subrange(from as int, to as int),
{
    let mut s: String = String::new();
    let mut i: usize = from;
    assert(s@ =~= chars@.subrange(from as int, from as int));
    while i < to
        invariant
            from <= i <= to <= chars@.len(),
            s@ == chars@.subrange(from as int, i as int),
        decreases to - i,
    {
        s.push(chars[i]);
        i = i + 1;
        assert(s@ =~= chars@.subrange(from as int, i as int));
    }
    s
}

/// Whether Unicode counts the character as white space.
fn white(c: char) -> (r: bool)
    ensures
        r == is_white(c),
{
    let n: u32 = c as u32;
    (9 <= n && n <= 13) || n == 0x20 || n == 0x85 || n == 0xa0 || n == 0x1680 || (0x2000 <= n && n
        <= 0x200a) || n == 0x2028 || n == 0x2029 || n == 0x202f || n == 0x205f || n == 0x3000
}

/// A text without the white space around it.
pub fn trim(s: &str) -> (r: String)
    ensures
        r@ == trimmed(s@),
{
    let chars: Vec<char> = characters(s);
    let mut from: usize = 0;
    assert(s@.skip(0) =~= s@);
    while from < chars.len() && white(chars[from])
        invariant
            from <= chars@.len(),
            chars@ == s@,
            trimmed_start(s@.skip(from as int)) == trimmed_start(s@),
        ensures
            from <= chars@.len(),
            trimmed_start(s@) == s@.skip(from as int),
        decreases chars@.len() - from,
    {
        assert(s@.skip(from as int).drop_first() =~= s@.skip(from + 1));
        from = from + 1;
    }
    let mut to: usize = chars.len();
    let ghost rest = s@.skip(from as int);
    assert(s@.subrange(from as int, to as int) =~= rest);
    while to > from && white(chars[to - 1])
        invariant
            from <= to <= chars@.len(),
            chars@ == s@,
            rest == s@.skip(from as int),
            trimmed_end(s@.subrange(from as int, to as int)) == trimmed_end(rest),
        ensures
            from <= to <= chars@.len(),
            trimmed_end(rest) == s@.subrange(from as int, to as int),
        decreases to,
    {
        assert(s@.subrange(from as int, to as int).drop_last() =~= s@.subrange(
            from as int,
            to - 1,
        ));
        to = to - 1;
    }
    text_of(&chars, from, to)
}

/// A text without the slashes at its end.
pub fn trim_slashes(s: &str) -> (r: String)
    ensures
        r@ == without_slashes(s@),
{
    let chars: Vec<char> = characters(s);
    let mut to: usize = chars.len();
    assert(s@.take(to as int) =~= s@);
    while to > 0 && chars[to - 1] == '/'
        invariant
            to <= chars@.len(),
            chars@ == s@,
            without_slashes(s@.take(to as int)) == without_slashes(s@),
        ensures
            to <= chars@.len(),
            without_slashes(s@) == s@.take(to as int),
        decreases to,
    {
        assert(s@.take(to as int).drop_last() =~= s@.take(to - 1));
        to = to - 1;
    }
    assert(s@.take(to as int) =~= s@.subrange(0, to as int));
    text_of(&chars, 0, to)
}

/// A text with the capitals of ASCII made small.
pub fn to_lower(s: &str) -> (r: String)
    ensures
        r@ == lowered(s@),
{
    let mut r: String = String::new();
    for c in it: s.chars()
        invariant
            it.seq() == s@,
            r@ == lowered(s@.take(it.index() as int)),
    {
        let small: char = if 'A' <= c && c <= 'Z' {
            (c as u8 + 32) as char
        } else {
            c
        };
        r.push(small);
        assert(lowered(s@.take(it.index() as int + 1)) =~= lowered(
            s@.take(it.index() as int),
        ).push(small));
    }
    assert(s@.take(s@.len() as int) =~= s@);
    r
}

/// Whether `part` occurs in `s`.
pub fn contains(s: &str, part: &str) -> (r: bool)
    ensures
        r == occurs(s@, part@),
{
    let chars: Vec<char> = characters(s);
    let sought: Vec<char> = characters(part);
    if sought.len() > chars.len() {
        return false;
    }
    let total: usize = chars.len();
    let last: usize = total - sought.len();
    let mut at: usize = 0;
    loop
        invariant
            at <= last,
            last + sought@.len() == total,
            total == chars@.len(),
            chars@ == s@,
            sought@ == part@,
            forall|a: int| 0 <= a < at ==> !(#[trigger] occurs_at(s@, part@, a)),
        decreases last - at,
    {
        let mut i: usize = 0;
        while i < sought.len() && chars[at + i] == sought[i]
            invariant
                i <= sought@.len(),
                at + sought@.len() <= total,
                total == chars@.len(),
                forall|j: int| 0 <= j < i ==> chars@[at + j] == sought@[j],
            ensures
                i <= sought@.len(),
                forall|j: int| 0 <= j < i ==> chars@[at + j] == sought@[j],
                i < sought@.len() ==> chars@[at + i] != sought@[i as int],
            decreases sought@.len() - i,
        {
            i = i + 1;
        }
        if i == sought.len() {
            assert(s@.subrange(at as int, at + part@.len() as int) =~= part@);
            assert(occurs_at(s@, part@, at as int));
            return true;
        }
        assert(!occurs_at(s@, part@, at as int)) by {
            if occurs_at(s@, part@, at as int) {
                assert(s@.subrange(at as int, at + part@.len() as int)[i as int] == part@[i as int]);
            }
        }
        if at == last {
            return false;
        }
        at = at + 1;
    }
}

/// Where `c` first occurs in a text.
pub fn find_char(chars: &Vec<char>, c: char) -> (r: Option<usize>)
    ensures
        match r {
            Some(at) => at < chars@.len() && chars@[at as int] == c && forall|i: int|
                0 <= i < at ==> chars@[i] != c,
            None => forall|i: int| 0 <= i < chars@.len() ==> chars@[i] != c,
        },
        r is None ==> !chars@.contains(c),
{
    let mut at: usize = 0;
    while at < chars.len()
        invariant
            at <= chars@.len(),
            forall|i: int| 0 <= i < at ==> chars@[i] != c,
        decreases chars@.len() - at,
    {
        if chars[at] == c {
            return Some(at);
        }
        at = at + 1;
    }
    None
}

/// Whether two texts are the same.
pub fn same_text(a: &str, b: &str) -> (same: bool)
    ensures
        same == (a@ == b@),
{
    let x: Vec<char> = characters(a);
    let y: Vec<char> = characters(b);
    if x.len() != y.len() {
        return false;
    }
    let mut i: usize = 0;
    while i < x.len()
        invariant
            i <= x@.len(),
            x@.len() == y@.len(),
            x@ == a@,
            y@ == b@,
            forall|j: int| 0 <= j < i ==> x@[j] == y@[j],
        decreases x@.len() - i,
    {
        if x[i] != y[i] {
            return false;
        }
        i = i + 1;
    }
    assert(a@ =~= b@);
    true
}

/// The digit of a number below ten.
pub open spec fn digit(n: nat) -> char {
    (48 + n) as u8 as char
}

/// A number in decimal.
pub open spec fn decimal_of(n: nat) -> Seq<char>
    decreases n,
{
    if n < 10 {
        seq![digit(n)]
    } else {
        decimal_of(n / 10).push(digit(n % 10))
    }
}

/// A number in decimal.
pub fn decimal(n: u64) -> (s: String)
    ensures
        s@ == decimal_of(n as nat),
    decreases n,
{
    if n < 10 {
        let mut s: String = String::new();
        s.push((48 + n as u8) as char);
        assert(s@ =~= decimal_of(n as nat));
        s
    } else {
        let mut s: String = decimal(n / 10);
        s.push((48 + (n % 10) as u8) as char);
        s
    }
}

/// A text with spaces behind it up to a width.
pub open spec fn padded_to(s: Seq<char>, width: nat) -> Seq<char> {
    if s.len() >= width {
        s
    } else {
        s + Seq::new((width - s.len()) as nat, |i: int| ' ')
    }
}

/// A text with spaces behind it up to a width.
pub fn pad_to(s: &str, width: usize) -> (r: String)
    ensures
        r@ == padded_to(s@, width as nat),
{
    let mut r: String = s.to_owned();
    let mut n: usize = s.unicode_len();
    assert(r@ =~= s@ + Seq::new(0, |i: int| ' '));
    while n < width
        invariant
            s@.len() <= n,
            n <= width || n == s@.len(),
            r@ == s@ + Seq::new((n - s@.len()) as nat, |i: int| ' '),
        decreases width - n,
    {
        r.push(' ');
        n = n + 1;
        assert(r@ =~= s@ + Seq::new((n - s@.len()) as nat, |i: int| ' '));
    }
    assert(r@ =~= padded_to(s@, width as nat));
    r
}

/// A text that may be missing, once more.
pub(crate) fn copy_text(text: &Option<String>) -> (copy: Option<String>)
    ensures
        copy == *text,
{
    match text {
        Some(text) => Some(text.clone()),
        None => None,
    }
}

/// The white space of ASCII is the blank and the characters from the tab to the
/// carriage return; letters, digits and the like are none.
pub proof fn white_space_is_blank(c: char)
    ensures
        c as u32 <= 127 ==> (is_white(c) <==> c as u32 == 32 || 9 <= c as u32 <= 13),
{
}

/// Whether `s` is `before`, `kept` and `after`, one behind the other.
pub open spec fn parts(s: Seq<char>, before: Seq<char>, kept: Seq<char>, after: Seq<char>) -> bool {
    s == before + kept + after
}

/// Whether every character is white space.
pub open spec fn all_white(s: Seq<char>) -> bool {
    forall|i: int| 0 <= i < s.len() ==> is_white(#[trigger] s[i])
}

/// What stands before a text without the white space at its front is white.
proof fn lemma_trimmed_start(s: Seq<char>) -> (before: Seq<char>)
    ensures
        s == before + trimmed_start(s),
        all_white(before),
        trimmed_start(s).len() > 0 ==> !is_white(trimmed_start(s)[0]),
    decreases s.len(),
{
    if s.len() > 0 && is_white(s[0]) {
        let rest = lemma_trimmed_start(s.drop_first());
        let before = seq![s[0]] + rest;
        assert(s.drop_first() == rest + trimmed_start(s));
        assert(s =~= seq![s[0]] + s.drop_first());
        assert(seq![s[0]] + (rest + trimmed_start(s)) =~= before + trimmed_start(s));
        assert forall|i: int| 0 <= i < before.len() implies is_white(#[trigger] before[i]) by {
            if i > 0 {
                assert(before[i] == rest[i - 1]);
            }
        }
        before
    } else {
        assert(s =~= Seq::<char>::empty() + s);
        Seq::empty()
    }
}

/// What stands behind a text without the white space at its end is white.
proof fn lemma_trimmed_end(s: Seq<char>) -> (after: Seq<char>)
    ensures
        s == trimmed_end(s) + after,
        all_white(after),
        trimmed_end(s).len() > 0 ==> !is_white(trimmed_end(s).last()),
        trimmed_end(s).len() > 0 ==> trimmed_end(s)[0] == s[0],
    decreases s.len(),
{
    if s.len() > 0 && is_white(s.last()) {
        let rest = lemma_trimmed_end(s.drop_last());
        let after = rest.push(s.last());
        assert(s.drop_last() == trimmed_end(s) + rest);
        assert(s =~= s.drop_last().push(s.last()));
        assert((trimmed_end(s) + rest).push(s.last()) =~= trimmed_end(s) + after);
        assert forall|i: int| 0 <= i < after.len() implies is_white(#[trigger] after[i]) by {
            if i < rest.len() {
                assert(after[i] == rest[i]);
            }
        }
        after
    } else {
        assert(s =~= s + Seq::<char>::empty());
        Seq::empty()
    }
}

/// Trimming takes away the white space on either side, all of it, and nothing
/// else.
pub proof fn trimming_takes_the_white_space(s: &str, r: String)
    requires
        call_ensures(trim, (s,), r),
    ensures
        exists|before: Seq<char>, after: Seq<char>|
            #[trigger] parts(s@, before, r@, after) && all_white(before) && all_white(after),
        r@.len() > 0 ==> !is_white(r@[0]) && !is_white(r@.last()),
        r@ == trimmed(s@),
{
    let before = lemma_trimmed_start(s@);
    let after = lemma_trimmed_end(trimmed_start(s@));
    assert(before + trimmed_start(s@) =~= before + r@ + after);
    assert(parts(s@, before, r@, after));
}

/// Trimming slashes takes away those at the end, all of them, and nothing else.
pub proof fn trimming_takes_the_slashes(s: &str, r: String)
    requires
        call_ensures(trim_slashes, (s,), r),
    ensures
        r@.len() <= s@.len(),
        r@ == s@.take(r@.len() as int),
        forall|i: int| r@.len() <= i < s@.len() ==> #[trigger] s@[i] == '/',
        r@.len() > 0 ==> r@.last() != '/',
        r@ == without_slashes(s@),
{
    lemma_without_slashes(s@);
}

/// What stands behind a text without the slashes at its end are slashes.
proof fn lemma_without_slashes(s: Seq<char>)
    ensures
        without_slashes(s).len() <= s.len(),
        without_slashes(s) == s.take(without_slashes(s).len() as int),
        forall|i: int| without_slashes(s).len() <= i < s.len() ==> #[trigger] s[i] == '/',
        without_slashes(s).len() > 0 ==> without_slashes(s).last() != '/',
    decreases s.len(),
{
    if s.len() > 0 && s.last() == '/' {
        let front = s.drop_last();
        lemma_without_slashes(front);
        assert(without_slashes(s) =~= s.take(without_slashes(s).len() as int));
        assert forall|i: int| without_slashes(s).len() <= i < s.len() implies #[trigger] s[i]
            == '/' by {
            if i < front.len() {
                assert(front[i] == s[i]);
            }
        }
    } else {
        assert(s =~= s.take(s.len() as int));
    }
}

/// Making a text small changes the capitals of ASCII, each to its own small
/// letter, and nothing else.
pub proof fn capitals_are_made_small(s: &str, r: String)
    requires
        call_ensures(to_lower, (s,), r),
    ensures
        r@.len() == s@.len(),
        forall|i: int|
            0 <= i < s@.len() ==> if 65 <= s@[i] as u32 <= 90 {
                #[trigger] r@[i] as u32 == s@[i] as u32 + 32
            } else {
                r@[i] == s@[i]
            },
        r@ == lowered(s@),
{
}

/// A text is searched for another: it is found exactly where it stands whole
/// somewhere.
pub proof fn a_part_is_found_where_it_stands(s: &str, part: &str, r: bool)
    requires
        call_ensures(contains, (s, part), r),
    ensures
        r <==> exists|before: Seq<char>, after: Seq<char>| #[trigger]
            parts(s@, before, part@, after),
{
    if r {
        let at = choose|at: int| #[trigger] occurs_at(s@, part@, at);
        let before = s@.take(at);
        let after = s@.skip(at + part@.len());
        assert(s@ =~= before + part@ + after);
        assert(parts(s@, before, part@, after));
    }
    if exists|before: Seq<char>, after: Seq<char>| #[trigger] parts(s@, before, part@, after) {
        let (before, after) = choose|before: Seq<char>, after: Seq<char>| #[trigger]
            parts(s@, before, part@, after);
        let at = before.len() as int;
        assert(s@.subrange(at, at + part@.len() as int) =~= part@);
        assert(occurs_at(s@, part@, at));
    }
}

/// A character is found where it first stands.
pub proof fn a_character_is_found_where_it_first_stands(
    chars: &Vec<char>,
    c: char,
    r: Option<usize>,
)
    requires
        call_ensures(find_char, (chars, c), r),
    ensures
        r is None <==> !chars@.contains(c),
        r matches Some(at) ==> at < chars@.len() && chars@[at as int] == c && !chars@.take(
            at as int,
        ).contains(c),
{
    match r {
        Some(at) => {
            assert(chars@[at as int] == c);
            assert(chars@.contains(c));
        },
        None => {
            assert(!chars@.contains(c));
        },
    }
}

/// A text and its characters are the same, and texts are the same where their
/// characters are.
pub proof fn text_is_its_characters(
    s: &str,
    chars: Vec<char>,
    from: usize,
    to: usize,
    part: String,
    other: &str,
    same: bool,
)
    requires
        call_ensures(characters, (s,), chars),
        call_ensures(text_of, (&chars, from, to), part),
        from <= to <= chars@.len(),
        call_ensures(same_text, (s, other), same),
    ensures
        chars@ == s@,
        part@ == s@.subrange(from as int, to as int),
        same <==> s@ == other@,
{
}

/// The number that digits spell in decimal.
pub open spec fn spelled(digits: Seq<char>) -> int
    decreases digits.len(),
{
    if digits.len() == 0 {
        0
    } else {
        10 * spelled(digits.drop_last()) + (digits.last() as u32 - 48)
    }
}

/// A number in decimal spells the number, in digits, without a zero in front.
proof fn lemma_spelled(n: nat)
    ensures
        spelled(decimal_of(n)) == n,
        decimal_of(n).len() > 0,
        forall|i: int| 0 <= i < decimal_of(n).len() ==> 48 <= #[trigger] decimal_of(n)[i] as u32 <= 57,
        n > 0 ==> decimal_of(n)[0] as u32 > 48,
        n == 0 ==> decimal_of(n).len() == 1,
    decreases n,
{
    if n < 10 {
        let s = decimal_of(n);
        assert(s.drop_last() =~= Seq::<char>::empty());
        assert(spelled(s.drop_last()) == 0);
    } else {
        lemma_spelled(n / 10);
        assert(decimal_of(n).drop_last() =~= decimal_of(n / 10));
    }
}

/// A number in decimal spells the number, in digits, without a zero in front.
pub proof fn a_decimal_spells_its_number(n: u64, s: String)
    requires
        call_ensures(decimal, (n,), s),
    ensures
        spelled(s@) == n,
        forall|i: int| 0 <= i < s@.len() ==> 48 <= #[trigger] s@[i] as u32 <= 57,
        n > 0 ==> s@[0] as u32 > 48,
        n == 0 ==> s@.len() == 1,
        s@ == decimal_of(n as nat),
{
    lemma_spelled(n as nat);
}

/// Padding puts blanks behind a text up to a width, and leaves one that is wide
/// enough as it is.
pub proof fn padding_puts_blanks_behind(s: &str, width: usize, r: String)
    requires
        call_ensures(pad_to, (s, width), r),
    ensures
        r@.take(s@.len() as int) == s@,
        s@.len() >= width ==> r@ == s@,
        s@.len() < width ==> r@.len() == width && forall|i: int|
            s@.len() <= i < width ==> #[trigger] r@[i] == ' ',
{
    assert(r@.take(s@.len() as int) =~= s@);
}

} // verus!
