//! Splitting text into fields at separator characters.

use vstd::prelude::*;

verus! {

/// Whether `c` has the Unicode `White_Space` property.
pub open spec fn is_whitespace(c: char) -> bool {
    let n: u32 = c as u32;
    ||| 0x09 <= n <= 0x0D
    ||| n == 0x20
    ||| n == 0x85
    ||| n == 0xA0
    ||| n == 0x1680
    ||| 0x2000 <= n <= 0x200A
    ||| n == 0x2028
    ||| n == 0x2029
    ||| n == 0x202F
    ||| n == 0x205F
    ||| n == 0x3000
}

/// Tests a character for the Unicode `White_Space` property.
pub fn is_whitespace_char(c: char) -> (b: bool)
    ensures
        b == is_whitespace(c),
{
    let n: u32 = c as u32;
    (0x09 <= n && n <= 0x0D) || n == 0x20 || n == 0x85 || n == 0xA0 || n == 0x1680 || (0x2000 <= n
        && n <= 0x200A) || n == 0x2028 || n == 0x2029 || n == 0x202F || n == 0x205F || n == 0x3000
}

/// What ends one field and starts the next.
#[derive(Clone, Copy, Debug)]
pub enum Separator {
    /// Any white-space character.
    Whitespace,
    /// One given character.
    Char(char),
}

impl Separator {
    /// Whether `c` is a separator.
    pub open spec fn matches(self, c: char) -> bool {
        match self {
            Separator::Whitespace => is_whitespace(c),
            Separator::Char(d) => c == d,
        }
    }

    /// Tests whether `c` is a separator.
    pub fn test(&self, c: char) -> (b: bool)
        ensures
            b == self.matches(c),
    {
        match self {
            Separator::Whitespace => is_whitespace_char(c),
            Separator::Char(d) => c == *d,
        }
    }
}

/// The number of characters of `s` that stand before its first separator:
/// all of them where it has none.
pub open spec fn first_field_len(s: Seq<char>, sep: Separator) -> nat
    decreases s.len(),
{
    if s.len() == 0 || sep.matches(s[0]) {
        0
    } else {
        1 + first_field_len(s.skip(1), sep)
    }
}

/// The fields of `s`: the stretches of text between its separators, from left
/// to right. A text with `k` separators has `k + 1` fields, some of which may
/// be empty; the empty text has one empty field.
pub open spec fn fields(s: Seq<char>, sep: Separator) -> Seq<Seq<char>>
    decreases s.len(),
{
    let n = first_field_len(s, sep);
    if n >= s.len() {
        seq![s]
    } else {
        seq![s.take(n as int)] + fields(s.skip(n as int + 1), sep)
    }
}

/// Holds of the texts that have at least one character.
pub open spec fn non_empty() -> spec_fn(Seq<char>) -> bool {
    |f: Seq<char>| f.len() > 0
}

/// The words of `s`: its non-empty fields between white space.
pub open spec fn words(s: Seq<char>) -> Seq<Seq<char>> {
    fields(s, Separator::Whitespace).filter(non_empty())
}

/// The fields that a split hands out: all of them, or the non-empty ones.
spec fn kept(all: Seq<Seq<char>>, keep_empty: bool) -> Seq<Seq<char>> {
    if keep_empty {
        all
    } else {
        all.filter(non_empty())
    }
}

/// The first field of `s` ends at `k` when no separator stands before `k`
/// and either a separator or the end of the text stands at `k`.
pub proof fn lemma_first_field_len(s: Seq<char>, sep: Separator, k: int)
    requires
        0 <= k <= s.len(),
        forall|j: int| 0 <= j < k ==> !sep.matches(s[j]),
        k == s.len() || sep.matches(s[k]),
    ensures
        first_field_len(s, sep) == k,
    decreases k,
{
    if k > 0 {
        lemma_first_field_len(s.skip(1), sep, k - 1);
    }
}

/// The first field of `s` is free of separators, and a separator or the end
/// of the text follows it.
proof fn lemma_first_field(s: Seq<char>, sep: Separator)
    ensures
        first_field_len(s, sep) <= s.len(),
        forall|j: int| 0 <= j < first_field_len(s, sep) ==> !sep.matches(s[j]),
        first_field_len(s, sep) == s.len() || sep.matches(s[first_field_len(s, sep) as int]),
    decreases s.len(),
{
    if !(s.len() == 0 || sep.matches(s[0])) {
        let rest = s.skip(1);
        lemma_first_field(rest, sep);
        assert forall|j: int| 0 <= j < first_field_len(s, sep) implies !sep.matches(s[j]) by {
            if j > 0 {
                assert(s[j] == rest[j - 1]);
            }
        }
    }
}

/// No field holds a separator.
pub proof fn lemma_fields_hold_no_separator(s: Seq<char>, sep: Separator)
    ensures
        forall|i: int, j: int|
            0 <= i < fields(s, sep).len() && 0 <= j < fields(s, sep)[i].len() ==> !sep.matches(
                #[trigger] fields(s, sep)[i][j],
            ),
    decreases s.len(),
{
    let n = first_field_len(s, sep);
    lemma_first_field(s, sep);
    if n < s.len() {
        let rest = fields(s.skip(n as int + 1), sep);
        lemma_fields_hold_no_separator(s.skip(n as int + 1), sep);
        assert forall|i: int, j: int|
            0 <= i < fields(s, sep).len() && 0 <= j < fields(s, sep)[i].len() implies !sep.matches(
            #[trigger] fields(s, sep)[i][j],
        ) by {
            if i > 0 {
                assert(fields(s, sep)[i] == rest[i - 1]);
            }
        }
    }
}

/// Every word has at least one character, and none that is white space.
pub proof fn lemma_words_are_tokens(s: Seq<char>)
    ensures
        forall|i: int| 0 <= i < words(s).len() ==> (#[trigger] words(s)[i]).len() > 0,
        forall|i: int, j: int|
            0 <= i < words(s).len() && 0 <= j < words(s)[i].len() ==> !is_whitespace(
                #[trigger] words(s)[i][j],
            ),
{
    let all = fields(s, Separator::Whitespace);
    lemma_fields_hold_no_separator(s, Separator::Whitespace);
    assert forall|i: int| 0 <= i < words(s).len() implies (#[trigger] words(s)[i]).len() > 0 && (
    forall|j: int| 0 <= j < words(s)[i].len() ==> !is_whitespace(#[trigger] words(s)[i][j])) by {
        let word = words(s)[i];
        all.lemma_filter_pred(non_empty(), i);
        all.lemma_filter_contains_rev(non_empty(), word);
    }
}

/// The characters of `s`, in order.
pub fn chars_of(s: &str) -> (v: Vec<char>)
    ensures
        v@ == s@,
{
    let mut v: Vec<char> = Vec::new();
    let chars = s.chars();
    for c in it: chars
        invariant
            v@ == it.seq().take(it.index() as int),
            it.seq() == s@,
    {
        v.push(c);
    }
    v
}

/// Keeping the wanted fields of `seq![f] + rest` keeps `f`, if it is
/// wanted, and then the wanted fields of `rest`.
proof fn lemma_kept_first(f: Seq<char>, rest: Seq<Seq<char>>, keep_empty: bool)
    ensures
        kept(seq![f] + rest, keep_empty) == (if keep_empty || f.len() > 0 {
            seq![f]
        } else {
            Seq::empty()
        }) + kept(rest, keep_empty),
{
    if !keep_empty {
        Seq::filter_distributes_over_add(seq![f], rest, non_empty());
        reveal_with_fuel(Seq::filter, 2);
        assert(seq![f].filter(non_empty()) == if f.len() > 0 {
            seq![f]
        } else {
            Seq::empty()
        });
    }
}

/// Splits `s` at its separators and hands out the fields, in order: all of
/// them, or only the non-empty ones.
fn split_fields(s: &str, sep: Separator, keep_empty: bool) -> (out: Vec<String>)
    ensures
        out.deep_view() == kept(fields(s@, sep), keep_empty),
{
    let chars = chars_of(s);
    let n = chars.len();
    let mut out: Vec<String> = Vec::new();
    let mut start: usize = 0;
    let mut i: usize = 0;
    proof {
        assert(s@.skip(0) == s@);
        assert(out.deep_view() + kept(fields(s@, sep), keep_empty) == kept(
            fields(s@, sep),
            keep_empty,
        ));
    }
    while i < n
        invariant
            chars@ == s@,
            n == chars.len(),
            start <= i <= n,
            forall|j: int| start <= j < i ==> !sep.matches(s@[j]),
            kept(fields(s@, sep), keep_empty) == out.deep_view() + kept(
                fields(s@.skip(start as int), sep),
                keep_empty,
            ),
        decreases n - i,
    {
        if sep.test(chars[i]) {
            let ghost before = out.deep_view();
            let ghost rest = s@.skip(start as int);
            let ghost field = s@.subrange(start as int, i as int);
            proof {
                lemma_first_field_len(rest, sep, i - start);
                assert(rest.take(i - start) == field);
                assert(rest.skip(i - start + 1) == s@.skip(i + 1));
                lemma_kept_first(field, fields(s@.skip(i + 1), sep), keep_empty);
            }
            if keep_empty || i > start {
                out.push(s.substring_char(start, i).to_owned());
            }
            assert(out.deep_view() + kept(fields(s@.skip(i + 1), sep), keep_empty) == before + kept(
                fields(rest, sep),
                keep_empty,
            ));
            start = i + 1;
        }
        i += 1;
    }
    proof {
        lemma_first_field_len(s@.skip(start as int), sep, n - start);
        lemma_kept_first(s@.subrange(start as int, n as int), Seq::empty(), keep_empty);
    }
    if keep_empty || n > start {
        out.push(s.substring_char(start, n).to_owned());
    }
    out
}

/// Splits `s` into its fields.
pub fn split(s: &str, sep: Separator) -> (out: Vec<String>)
    ensures
        out.deep_view() == fields(s@, sep),
{
    split_fields(s, sep, true)
}

/// Splits `s` into its words.
pub fn split_words(s: &str) -> (out: Vec<String>)
    ensures
        out.deep_view() == words(s@),
{
    split_fields(s, Separator::Whitespace, false)
}

} // verus!
