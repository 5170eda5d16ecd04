//! Text as a sequence of characters: trimming, splitting, matching and decimal numerals.

use vstd::prelude::*;
use vstd::slice::slice_subrange;

verus! {

/// `String::push` of std: the character joins the end of the text.
pub assume_specification[ String::push ](s: &mut String, c: char)
    ensures
        final(s)@ == old(s)@.push(c),
;

/// The characters of `s`, in order.
pub fn chars_of(s: &str) -> (r: Vec<char>)
    ensures
        r@ == s@,
{
    let mut r: Vec<char> = Vec::new();
    for c in it: s.chars()
        invariant
            it.seq() == s@,
            r@ == it.seq().take(it.index()),
    {
        r.push(c);
        assert(it.seq().take(it.index() + 1) =~= it.seq().take(it.index()).push(c));
    }
    assert(s@.take(s@.len() as int) =~= s@);
    r
}

/// The text made of the characters `chars`, in order.
pub fn string_of(chars: &[char]) -> (r: String)
    ensures
        r@ == chars@,
{
    let mut r = String::new();
    let mut i: usize = 0;
    while i < chars.len()
        invariant
            i <= chars@.len(),
            r@ == chars@.take(i as int),
        decreases chars@.len() - i,
    {
        r.push(chars[i]);
        assert(chars@.take(i + 1) =~= chars@.take(i as int).push(chars@[i as int]));
        i = i + 1;
    }
    assert(chars@.take(chars@.len() as int) =~= chars@);
    r
}

/// The characters that Unicode gives the `White_Space` property.
pub open spec fn white_space(c: char) -> bool {
    let n = c as u32;
    ||| 0x09 <= n <= 0x0D
    ||| n == 0x20
    ||| n == 0x85
    ||| n == 0xA0
    ||| n == 0x1680
    ||| 0x2000 <= n <= 0x200A
    ||| n == 0x2028
    ||| n == 0x2029
    ||| n == 0x202F
    ||| n == 0x205F
    ||| n == 0x3000
}

/// Whether `c` is white space.
pub fn is_white_space(c: char) -> (r: bool)
    ensures
        r == white_space(c),
{
    let n: u32 = c as u32;
    (0x09 <= n && n <= 0x0D) || n == 0x20 || n == 0x85 || n == 0xA0 || n == 0x1680 || (0x2000 <= n
        && n <= 0x200A) || n == 0x2028 || n == 0x2029 || n == 0x202F || n == 0x205F || n == 0x3000
}

/// `s` without the white space that it starts with.
pub open spec fn trim_start(s: Seq<char>) -> Seq<char>
    decreases s.len(),
{
    if s.len() > 0 && white_space(s[0]) {
        trim_start(s.drop_first())
    } else {
        s
    }
}

/// `s` without the white space that it ends with.
pub open spec fn trim_end(s: Seq<char>) -> Seq<char>
    decreases s.len(),
{
    if s.len() > 0 && white_space(s.last()) {
        trim_end(s.drop_last())
    } else {
        s
    }
}

/// `s` without the white space at either end.
pub open spec fn trim(s: Seq<char>) -> Seq<char> {
    trim_end(trim_start(s))
}

/// `s` without the white space at either end.
pub fn trimmed(s: &[char]) -> (r: &[char])
    ensures
        r@ == trim(s@),
{
    let mut a: usize = 0;
    assert(s@.skip(0) =~= s@);
    while a < s.len() && is_white_space(s[a])
        invariant
            a <= s@.len(),
            trim_start(s@) == trim_start(s@.skip(a as int)),
        decreases s@.len() - a,
    {
        assert(s@.skip(a as int).drop_first() =~= s@.skip(a + 1));
        a = a + 1;
    }
    assert(trim_start(s@) == s@.skip(a as int));
    let mut b: usize = s.len();
    assert(s@.subrange(a as int, b as int) =~= s@.skip(a as int));
    while a < b && is_white_space(s[b - 1])
        invariant
            a <= b <= s@.len(),
            trim(s@) == trim_end(s@.subrange(a as int, b as int)),
        decreases b,
    {
        assert(s@.subrange(a as int, b as int).drop_last() =~= s@.subrange(a as int, b - 1));
        b = b - 1;
    }
    slice_subrange(s, a, b)
}

/// The maximal runs of `s` that hold no white space, in order. `run` is the run that ends where
/// `s` begins.
pub open spec fn words_after(run: Seq<char>, s: Seq<char>) -> Seq<Seq<char>>
    decreases s.len(),
{
    if s.len() == 0 {
        if run.len() == 0 {
            seq![]
        } else {
            seq![run]
        }
    } else if !white_space(s[0]) {
        words_after(run.push(s[0]), s.drop_first())
    } else if run.len() == 0 {
        words_after(seq![], s.drop_first())
    } else {
        seq![run] + words_after(seq![], s.drop_first())
    }
}

/// The maximal runs of `s` that hold no white space, in order.
pub open spec fn words(s: Seq<char>) -> Seq<Seq<char>> {
    words_after(seq![], s)
}

/// What each of `texts` holds.
pub open spec fn views(texts: Seq<String>) -> Seq<Seq<char>> {
    texts.map_values(|t: String| t@)
}

/// The maximal runs of `s` that hold no white space, in order.
pub fn split_words(s: &[char]) -> (r: Vec<String>)
    ensures
        views(r@) == words(s@),
{
    let mut r: Vec<String> = Vec::new();
    let mut run = String::new();
    let mut open = false;
    let mut i: usize = 0;
    assert(s@.skip(0) =~= s@);
    assert(views(r@) + words_after(run@, s@.skip(0)) =~= words(s@));
    while i < s.len()
        invariant
            i <= s@.len(),
            open == (run@.len() > 0),
            views(r@) + words_after(run@, s@.skip(i as int)) == words(s@),
        decreases s@.len() - i,
    {
        assert(s@.skip(i as int).drop_first() =~= s@.skip(i + 1));
        if !is_white_space(s[i]) {
            run.push(s[i]);
            open = true;
        } else if open {
            let ghost before = views(r@);
            let ghost ended = run@;
            r.push(run);
            assert(views(r@) =~= before.push(ended));
            run = String::new();
            open = false;
            assert(run@ =~= seq![]);
            assert(before + (seq![ended] + words_after(seq![], s@.skip(i + 1))) =~= views(r@)
                + words_after(run@, s@.skip(i + 1)));
        } else {
            assert(run@ =~= seq![]);
        }
        i = i + 1;
    }
    assert(s@.skip(i as int).len() == 0);
    let ghost before = views(r@);
    if open {
        let ghost ended = run@;
        r.push(run);
        assert(views(r@) =~= before + seq![ended]);
    } else {
        assert(before + Seq::<Seq<char>>::empty() =~= before);
    }
    r
}

/// The pieces of `s` between the characters `mark`. `piece` is the piece that ends where `s`
/// begins.
pub open spec fn fields_after(piece: Seq<char>, s: Seq<char>, mark: char) -> Seq<Seq<char>>
    decreases s.len(),
{
    if s.len() == 0 {
        seq![piece]
    } else if s[0] == mark {
        seq![piece] + fields_after(seq![], s.drop_first(), mark)
    } else {
        fields_after(piece.push(s[0]), s.drop_first(), mark)
    }
}

/// The pieces of `s` between the characters `mark`: one more than there are marks.
pub open spec fn fields(s: Seq<char>, mark: char) -> Seq<Seq<char>> {
    fields_after(seq![], s, mark)
}

/// The pieces of `s` between the characters `mark`: one more than there are marks.
pub fn split_fields(s: &[char], mark: char) -> (r: Vec<String>)
    ensures
        views(r@) == fields(s@, mark),
{
    let mut r: Vec<String> = Vec::new();
    let mut piece = String::new();
    let mut i: usize = 0;
    assert(s@.skip(0) =~= s@);
    assert(piece@ =~= seq![]);
    assert(views(r@) + fields_after(piece@, s@.skip(0), mark) =~= fields(s@, mark));
    while i < s.len()
        invariant
            i <= s@.len(),
            views(r@) + fields_after(piece@, s@.skip(i as int), mark) == fields(s@, mark),
        decreases s@.len() - i,
    {
        assert(s@.skip(i as int).drop_first() =~= s@.skip(i + 1));
        if s[i] == mark {
            let ghost before = views(r@);
            let ghost ended = piece@;
            r.push(piece);
            assert(views(r@) =~= before.push(ended));
            piece = String::new();
            assert(piece@ =~= seq![]);
            assert(before + (seq![ended] + fields_after(seq![], s@.skip(i + 1), mark)) =~= views(
                r@,
            ) + fields_after(piece@, s@.skip(i + 1), mark));
        } else {
            piece.push(s[i]);
        }
        i = i + 1;
    }
    assert(s@.skip(i as int).len() == 0);
    let ghost before = views(r@);
    let ghost ended = piece@;
    r.push(piece);
    assert(views(r@) =~= before + seq![ended]);
    r
}

/// `line` without the carriage return that it may end with.
pub open spec fn without_return(line: Seq<char>) -> Seq<char> {
    if line.len() > 0 && line.last() == '\r' {
        line.drop_last()
    } else {
        line
    }
}

/// The lines of `s`, each without the line feed that ends it and without a carriage return right
/// before that. `line` is the line that goes on where `s` begins.
pub open spec fn lines_after(line: Seq<char>, s: Seq<char>) -> Seq<Seq<char>>
    decreases s.len(),
{
    if s.len() == 0 {
        if line.len() == 0 {
            seq![]
        } else {
            seq![line]
        }
    } else if s[0] == '\n' {
        seq![without_return(line)] + lines_after(seq![], s.drop_first())
    } else {
        lines_after(line.push(s[0]), s.drop_first())
    }
}

/// The lines of `s`, each without the line feed that ends it and without a carriage return right
/// before that. What follows the last line feed is a line if it is not empty.
pub open spec fn lines(s: Seq<char>) -> Seq<Seq<char>> {
    lines_after(seq![], s)
}

/// What each of `parts` holds.
pub open spec fn char_views(parts: Seq<Vec<char>>) -> Seq<Seq<char>> {
    parts.map_values(|p: Vec<char>| p@)
}

/// The lines of `s`.
pub fn split_lines(s: &[char]) -> (r: Vec<Vec<char>>)
    ensures
        char_views(r@) == lines(s@),
{
    let mut r: Vec<Vec<char>> = Vec::new();
    let mut line: Vec<char> = Vec::new();
    let mut i: usize = 0;
    assert(s@.skip(0) =~= s@);
    assert(line@ =~= seq![]);
    assert(char_views(r@) + lines_after(line@, s@.skip(0)) =~= lines(s@));
    while i < s.len()
        invariant
            i <= s@.len(),
            char_views(r@) + lines_after(line@, s@.skip(i as int)) == lines(s@),
        decreases s@.len() - i,
    {
        assert(s@.skip(i as int).drop_first() =~= s@.skip(i + 1));
        if s[i] == '\n' {
            let ghost before = char_views(r@);
            let ghost ended = without_return(line@);
            if line.len() > 0 && line[line.len() - 1] == '\r' {
                line.pop();
            }
            assert(line@ =~= ended);
            r.push(line);
            assert(char_views(r@) =~= before.push(ended));
            line = Vec::new();
            assert(line@ =~= seq![]);
            assert(before + (seq![ended] + lines_after(seq![], s@.skip(i + 1))) =~= char_views(r@)
                + lines_after(line@, s@.skip(i + 1)));
        } else {
            line.push(s[i]);
        }
        i = i + 1;
    }
    assert(s@.skip(i as int).len() == 0);
    let ghost before = char_views(r@);
    if line.len() > 0 {
        let ghost ended = line@;
        r.push(line);
        assert(char_views(r@) =~= before + seq![ended]);
    } else {
        assert(before + Seq::<Seq<char>>::empty() =~= before);
    }
    r
}

/// Whether `s` begins with `head`.
pub open spec fn starts_with(s: Seq<char>, head: Seq<char>) -> bool {
    head.len() <= s.len() && s.take(head.len() as int) == head
}

/// Whether `s` begins with `head`.
pub fn has_prefix(s: &[char], head: &[char]) -> (r: bool)
    ensures
        r == starts_with(s@, head@),
{
    if s.len() < head.len() {
        return false;
    }
    let mut i: usize = 0;
    while i < head.len()
        invariant
            i <= head@.len() <= s@.len(),
            forall|j: int| 0 <= j < i ==> s@[j] == head@[j],
        decreases head@.len() - i,
    {
        if s[i] != head[i] {
            assert(s@.take(head@.len() as int)[i as int] != head@[i as int]);
            return false;
        }
        i = i + 1;
    }
    assert(s@.take(head@.len() as int) =~= head@);
    true
}

/// Whether `s` holds the characters of `word` and no others.
pub fn is_word(s: &[char], word: &str) -> (r: bool)
    ensures
        r == (s@ == word@),
{
    let w = chars_of(word);
    if s.len() != w.len() {
        return false;
    }
    let r = has_prefix(s, w.as_slice());
    assert(s@.take(w@.len() as int) =~= s@);
    r
}

/// Whether two texts hold the same characters.
pub fn same_text(a: &str, b: &str) -> (r: bool)
    ensures
        r == (a@ == b@),
{
    is_word(chars_of(a).as_slice(), b)
}

/// What follows `head` in `s`, if `s` begins with `head`.
pub open spec fn after_prefix(s: Seq<char>, head: Seq<char>) -> Option<Seq<char>> {
    if starts_with(s, head) {
        Some(s.skip(head.len() as int))
    } else {
        None
    }
}

/// What follows `head` in `s`, if `s` begins with `head`.
pub fn strip_head<'a>(s: &'a [char], head: &str) -> (r: Option<&'a [char]>)
    ensures
        match r {
            Some(rest) => after_prefix(s@, head@) == Some(rest@),
            None => after_prefix(s@, head@) is None,
        },
{
    let h = chars_of(head);
    if has_prefix(s, h.as_slice()) {
        let rest = slice_subrange(s, h.len(), s.len());
        assert(rest@ =~= s@.skip(h@.len() as int));
        Some(rest)
    } else {
        None
    }
}

/// `s` without the occurrences of `mark`, found from the left and not overlapping.
pub open spec fn without_all(s: Seq<char>, mark: Seq<char>) -> Seq<char>
    decreases s.len(),
{
    if s.len() == 0 {
        seq![]
    } else if mark.len() > 0 && starts_with(s, mark) {
        without_all(s.skip(mark.len() as int), mark)
    } else {
        seq![s[0]] + without_all(s.drop_first(), mark)
    }
}

/// `s` without the occurrences of `mark`, found from the left and not overlapping.
pub fn remove_all(s: &[char], mark: &str) -> (r: String)
    requires
        mark@.len() > 0,
    ensures
        r@ == without_all(s@, mark@),
{
    let m = chars_of(mark);
    let mut r = String::new();
    let mut i: usize = 0;
    assert(s@.skip(0) =~= s@);
    assert(r@ + without_all(s@.skip(0), mark@) =~= without_all(s@, mark@));
    while i < s.len()
        invariant
            i <= s@.len(),
            m@ == mark@,
            m@.len() > 0,
            r@ + without_all(s@.skip(i as int), mark@) == without_all(s@, mark@),
        decreases s@.len() - i,
    {
        let rest = slice_subrange(s, i, s.len());
        assert(rest@ =~= s@.skip(i as int));
        if has_prefix(rest, m.as_slice()) {
            assert(s@.skip(i as int).skip(m@.len() as int) =~= s@.skip(i + m@.len()));
            i = i + m.len();
        } else {
            let ghost before = r@;
            r.push(s[i]);
            assert(s@.skip(i as int).drop_first() =~= s@.skip(i + 1));
            assert(before + (seq![s@[i as int]] + without_all(s@.skip(i + 1), mark@)) =~= r@
                + without_all(s@.skip(i + 1), mark@));
            i = i + 1;
        }
    }
    assert(s@.skip(i as int).len() == 0);
    assert(r@ + Seq::<char>::empty() =~= r@);
    r
}

/// `c` with the letters `A` to `Z` made small.
pub open spec fn ascii_lower(c: char) -> char {
    if 'A' <= c <= 'Z' {
        ((c as u32) + 32) as char
    } else {
        c
    }
}

/// `s` with the letters `A` to `Z` made small.
pub open spec fn ascii_lowercase(s: Seq<char>) -> Seq<char> {
    s.map_values(|c: char| ascii_lower(c))
}

/// `c` with the letters `A` to `Z` made small.
pub fn lower(c: char) -> (r: char)
    ensures
        r == ascii_lower(c),
{
    if 'A' <= c && c <= 'Z' {
        ((c as u8) + 32) as char
    } else {
        c
    }
}

/// `s` with the letters `A` to `Z` made small.
pub fn lowered(s: &[char]) -> (r: Vec<char>)
    ensures
        r@ == ascii_lowercase(s@),
{
    let mut r: Vec<char> = Vec::new();
    let mut i: usize = 0;
    while i < s.len()
        invariant
            i <= s@.len(),
            r@ == ascii_lowercase(s@.take(i as int)),
        decreases s@.len() - i,
    {
        r.push(lower(s[i]));
        assert(r@ =~= ascii_lowercase(s@.take(i + 1)));
        i = i + 1;
    }
    assert(s@.take(s@.len() as int) =~= s@);
    r
}

/// Whether `a` and `b` are the same but for the case of the letters `A` to `Z`.
pub fn same_ignoring_case(a: &str, b: &str) -> (r: bool)
    ensures
        r == (ascii_lowercase(a@) == ascii_lowercase(b@)),
{
    let x = lowered(chars_of(a).as_slice());
    let y = lowered(chars_of(b).as_slice());
    if x.len() != y.len() {
        return false;
    }
    let r = has_prefix(x.as_slice(), y.as_slice());
    assert(x@.take(y@.len() as int) =~= x@);
    r
}

/// Whether `s` holds ASCII characters only.
pub open spec fn all_ascii(s: Seq<char>) -> bool {
    forall|i: int| 0 <= i < s.len() ==> (#[trigger] s[i] as u32) < 128
}

/// `c` with the letters `a` to `z` made large.
pub open spec fn ascii_upper(c: char) -> char {
    if 'a' <= c <= 'z' {
        ((c as u32) - 32) as char
    } else {
        c
    }
}

/// What `str::to_uppercase` of std makes of a text that holds other characters than ASCII: the
/// mapping that Unicode gives, which the library only carries through.
pub uninterp spec fn unicode_uppercase(s: Seq<char>) -> Seq<char>;

/// `s` with every letter made large.
pub open spec fn uppercase(s: Seq<char>) -> Seq<char> {
    if all_ascii(s) {
        s.map_values(|c: char| ascii_upper(c))
    } else {
        unicode_uppercase(s)
    }
}

/// `str::to_uppercase` of std: on ASCII text the letters `a` to `z` become `A` to `Z` and nothing
/// else changes; on other text the result is the one named `unicode_uppercase`.
#[verifier::external_body]
pub(crate) fn to_upper(s: &str) -> (r: String)
    ensures
        r@ == (if all_ascii(s@) {
            s@.map_values(|c: char| ascii_upper(c))
        } else {
            unicode_uppercase(s@)
        }),
{
    s.to_uppercase()
}

/// The numeral of one decimal digit.
pub open spec fn digit(n: nat) -> char {
    (('0' as nat) + n) as char
}

/// The decimal numeral of `n`, without leading zeros.
pub open spec fn decimal(n: nat) -> Seq<char>
    decreases n,
{
    if n < 10 {
        seq![digit(n)]
    } else {
        decimal(n / 10).push(digit(n % 10))
    }
}

/// The decimal numeral of `n`, without leading zeros.
pub fn numeral(n: u128) -> (r: Vec<char>)
    ensures
        r@ == decimal(n as nat),
    decreases n,
{
    let d: char = ((n % 10) as u8 + 48) as char;
    if n < 10 {
        let mut r: Vec<char> = Vec::new();
        r.push(d);
        assert(r@ =~= seq![digit(n as nat)]);
        r
    } else {
        let mut r = numeral(n / 10);
        r.push(d);
        r
    }
}

/// Whether `c` is a decimal digit.
pub open spec fn is_digit(c: char) -> bool {
    '0' <= c <= '9'
}

/// Whether `s` holds decimal digits and nothing else.
pub open spec fn all_digits(s: Seq<char>) -> bool {
    forall|i: int| 0 <= i < s.len() ==> is_digit(#[trigger] s[i])
}

/// The number that the decimal digits of `s` stand for.
pub open spec fn digits_value(s: Seq<char>) -> nat
    decreases s.len(),
{
    if s.len() == 0 {
        0
    } else {
        digits_value(s.drop_last()) * 10 + ((s.last() as nat) - ('0' as nat)) as nat
    }
}

/// The number below 256 that `digits` stands for: decimal digits, at least one.
pub open spec fn small_numeral(digits: Seq<char>) -> Option<u8> {
    if digits.len() > 0 && all_digits(digits) && digits_value(digits) <= 255 {
        Some(digits_value(digits) as u8)
    } else {
        None
    }
}

/// The number below 256 that `s` stands for: decimal digits, at least one, after at most one plus
/// sign.
pub open spec fn small_number(s: Seq<char>) -> Option<u8> {
    if s.len() > 0 && s[0] == '+' {
        small_numeral(s.drop_first())
    } else {
        small_numeral(s)
    }
}

proof fn digits_value_grows(s: Seq<char>, i: int)
    requires
        0 <= i <= s.len(),
        all_digits(s),
    ensures
        digits_value(s.take(i)) <= digits_value(s),
    decreases s.len() - i,
{
    if i < s.len() {
        digits_value_grows(s, i + 1);
        assert(s.take(i + 1).drop_last() =~= s.take(i));
    } else {
        assert(s.take(i) =~= s);
    }
}

/// The number below 256 that `s` stands for.
pub fn read_small_number(s: &[char]) -> (r: Option<u8>)
    ensures
        r == small_number(s@),
{
    let start: usize = if s.len() > 0 && s[0] == '+' {
        1
    } else {
        0
    };
    let digits = slice_subrange(s, start, s.len());
    assert(start == 1 ==> digits@ =~= s@.drop_first());
    assert(start == 0 ==> digits@ =~= s@);
    if digits.len() == 0 {
        return None;
    }
    // Whether every character is a digit is settled before the size of the number, so that the
    // running value may stop growing once it is too large.
    let mut i: usize = 0;
    while i < digits.len()
        invariant
            i <= digits@.len(),
            all_digits(digits@.take(i as int)),
            small_number(s@) == small_numeral(digits@),
        decreases digits@.len() - i,
    {
        let c: char = digits[i];
        if c < '0' || '9' < c {
            assert(!is_digit(digits@[i as int]));
            return None;
        }
        assert forall|j: int| 0 <= j < i + 1 implies is_digit(
            #[trigger] digits@.take(i + 1)[j],
        ) by {
            if j < i {
                assert(digits@.take(i as int)[j] == digits@.take(i + 1)[j]);
            }
        }
        i = i + 1;
    }
    assert(digits@.take(i as int) =~= digits@);
    let mut value: u32 = 0;
    let mut k: usize = 0;
    while k < digits.len()
        invariant
            k <= digits@.len(),
            all_digits(digits@),
            small_number(s@) == small_numeral(digits@),
            value <= 255,
            value == digits_value(digits@.take(k as int)),
        decreases digits@.len() - k,
    {
        assert(is_digit(digits@[k as int]));
        let next: u32 = value * 10 + (digits[k] as u32 - 48);
        assert(digits@.take(k + 1).drop_last() =~= digits@.take(k as int));
        if next > 255 {
            proof {
                digits_value_grows(digits@, k + 1);
            }
            return None;
        }
        value = next;
        k = k + 1;
    }
    assert(digits@.take(k as int) =~= digits@);
    Some(value as u8)
}

} // verus!
