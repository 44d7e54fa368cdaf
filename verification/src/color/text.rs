use vstd::prelude::*;

verus! {

/// The kinds of character that the notations tell apart.
#[derive(Clone, Copy, Debug, PartialEq, Eq, Structural)]
pub enum CharClass {
    /// White space of any script: what is taken off the ends of a text.
    Blank,
    /// ASCII white space: what parts the words of a list without commas.
    Space,
    /// Anything but ASCII white space.
    Word,
    /// A decimal digit.
    Digit,
    /// Anything but a comma.
    Field,
}

/// Whether `c` is white space as Unicode has it, the property White_Space:
/// U+0009 to U+000D, U+0020, U+0085, U+00A0, U+1680, U+2000 to U+200A,
/// U+2028, U+2029, U+202F, U+205F and U+3000.
pub open spec fn is_blank(c: char) -> bool {
    ('\u{9}' <= c && c <= '\u{d}') || c == '\u{20}' || c == '\u{85}' || c == '\u{a0}' || c
        == '\u{1680}' || ('\u{2000}' <= c && c <= '\u{200a}') || c == '\u{2028}' || c
        == '\u{2029}' || c == '\u{202f}' || c == '\u{205f}' || c == '\u{3000}'
}

/// Whether `c` is ASCII white space: space, tab, line feed, form feed or
/// carriage return. The vertical tab is none, though it is a blank.
pub open spec fn is_space(c: char) -> bool {
    c == ' ' || c == '\t' || c == '\n' || c == '\r' || c == '\x0c'
}

pub open spec fn is_digit(c: char) -> bool {
    '0' <= c && c <= '9'
}

/// The number that a decimal digit stands for.
pub open spec fn digit_value(c: char) -> int
    recommends
        is_digit(c),
{
    c as int - '0' as int
}

pub open spec fn is_hex_digit(c: char) -> bool {
    is_digit(c) || ('a' <= c && c <= 'f') || ('A' <= c && c <= 'F')
}

/// The number that a hexadecimal digit of either case stands for.
pub open spec fn hex_digit_value(c: char) -> int
    recommends
        is_hex_digit(c),
{
    if is_digit(c) {
        c as int - '0' as int
    } else if 'a' <= c && c <= 'f' {
        c as int - 'a' as int + 10
    } else {
        c as int - 'A' as int + 10
    }
}

/// An ASCII capital letter as its small letter; any other character unchanged.
pub open spec fn ascii_lower(c: char) -> char {
    if 'A' <= c && c <= 'Z' {
        ((c as int) + 32) as char
    } else {
        c
    }
}

impl CharClass {
    pub open spec fn has(self, c: char) -> bool {
        match self {
            CharClass::Blank => is_blank(c),
            CharClass::Space => is_space(c),
            CharClass::Word => !is_space(c),
            CharClass::Digit => is_digit(c),
            CharClass::Field => c != ',',
        }
    }

    pub fn contains(self, c: char) -> (b: bool)
        ensures
            b == self.has(c),
    {
        match self {
            CharClass::Blank => ('\u{9}' <= c && c <= '\u{d}') || c == '\u{20}' || c == '\u{85}'
                || c == '\u{a0}' || c == '\u{1680}' || ('\u{2000}' <= c && c <= '\u{200a}') || c
                == '\u{2028}' || c == '\u{2029}' || c == '\u{202f}' || c == '\u{205f}' || c
                == '\u{3000}',
            CharClass::Space => c == ' ' || c == '\t' || c == '\n' || c == '\r' || c == '\x0c',
            CharClass::Word => !(c == ' ' || c == '\t' || c == '\n' || c == '\r' || c == '\x0c'),
            CharClass::Digit => '0' <= c && c <= '9',
            CharClass::Field => c != ',',
        }
    }
}

/// How many characters at the start of `s` belong to `class`, up to the first
/// one that does not.
pub open spec fn run_length(s: Seq<char>, class: CharClass) -> nat
    decreases s.len(),
{
    if s.len() > 0 && class.has(s[0]) {
        1 + run_length(s.drop_first(), class)
    } else {
        0
    }
}

/// How many characters at the end of `s` belong to `class`, back to the last
/// one that does not.
pub open spec fn tail_run_length(s: Seq<char>, class: CharClass) -> nat
    decreases s.len(),
{
    if s.len() > 0 && class.has(s.last()) {
        1 + tail_run_length(s.drop_last(), class)
    } else {
        0
    }
}

/// A run at the start is as long as `n` when the first `n` characters belong
/// to the class and the next one, if there is one, does not.
pub proof fn lemma_run_length_is(s: Seq<char>, class: CharClass, n: int)
    requires
        0 <= n <= s.len(),
        forall|i: int| 0 <= i < n ==> class.has(#[trigger] s[i]),
        n == s.len() || !class.has(s[n]),
    ensures
        run_length(s, class) == n,
    decreases n,
{
    if n > 0 {
        let t = s.drop_first();
        assert forall|i: int| 0 <= i < n - 1 implies class.has(#[trigger] t[i]) by {
            assert(t[i] == s[i + 1]);
        }
        if n < s.len() {
            assert(t[n - 1] == s[n]);
        }
        lemma_run_length_is(t, class, n - 1);
    }
}

/// What the length of a run at the start says of the characters.
pub proof fn lemma_run_length_chars(s: Seq<char>, class: CharClass)
    ensures
        run_length(s, class) <= s.len(),
        forall|i: int| 0 <= i < run_length(s, class) ==> class.has(#[trigger] s[i]),
        run_length(s, class) == s.len() || !class.has(s[run_length(s, class) as int]),
    decreases s.len(),
{
    if s.len() > 0 && class.has(s[0]) {
        let t = s.drop_first();
        lemma_run_length_chars(t, class);
        let n = run_length(t, class);
        assert forall|i: int| 0 <= i < n + 1 implies class.has(#[trigger] s[i]) by {
            if i > 0 {
                assert(s[i] == t[i - 1]);
            }
        }
        if n < t.len() {
            assert(t[n as int] == s[n as int + 1]);
        }
    }
}

/// What the length of a run at the end says of the characters.
pub proof fn lemma_tail_run_length_chars(s: Seq<char>, class: CharClass)
    ensures
        tail_run_length(s, class) <= s.len(),
        forall|i: int|
            s.len() - tail_run_length(s, class) <= i < s.len() ==> class.has(#[trigger] s[i]),
        tail_run_length(s, class) == s.len() || !class.has(
            s[s.len() - tail_run_length(s, class) - 1],
        ),
    decreases s.len(),
{
    if s.len() > 0 && class.has(s.last()) {
        let t = s.drop_last();
        lemma_tail_run_length_chars(t, class);
        let n = tail_run_length(t, class);
        assert forall|i: int| s.len() - (n + 1) <= i < s.len() implies class.has(
            #[trigger] s[i],
        ) by {
            if i < s.len() - 1 {
                assert(s[i] == t[i]);
            }
        }
        if n < t.len() {
            assert(t[t.len() - n - 1] == s[s.len() - (n + 1) - 1]);
        }
    }
}

/// A run at the end is as long as `n` when the last `n` characters belong to
/// the class and the one before them, if there is one, does not.
pub proof fn lemma_tail_run_length_is(s: Seq<char>, class: CharClass, n: int)
    requires
        0 <= n <= s.len(),
        forall|i: int| s.len() - n <= i < s.len() ==> class.has(#[trigger] s[i]),
        n == s.len() || !class.has(s[s.len() - n - 1]),
    ensures
        tail_run_length(s, class) == n,
    decreases n,
{
    if n > 0 {
        let t = s.drop_last();
        assert forall|i: int| t.len() - (n - 1) <= i < t.len() implies class.has(
            #[trigger] t[i],
        ) by {
            assert(t[i] == s[i]);
        }
        if n < s.len() {
            assert(t[t.len() - (n - 1) - 1] == s[s.len() - n - 1]);
        }
        lemma_tail_run_length_is(t, class, n - 1);
    }
}

/// The end of the run of `class` that starts at `from`.
pub fn scan_run(v: &Vec<char>, from: usize, class: CharClass) -> (end: usize)
    requires
        from <= v.len(),
    ensures
        from <= end <= v.len(),
        end - from == run_length(v@.skip(from as int), class),
{
    let mut i: usize = from;
    while i < v.len() && class.contains(v[i])
        invariant
            from <= i <= v.len(),
            forall|j: int| from <= j < i ==> class.has(#[trigger] v@[j]),
        decreases v.len() - i,
    {
        i += 1;
    }
    proof {
        lemma_run_length_is(v@.skip(from as int), class, i - from);
    }
    i
}

/// The start of the run of `class` that ends at `to`, looking no further back
/// than `from`.
pub fn scan_run_back(v: &Vec<char>, from: usize, to: usize, class: CharClass) -> (start: usize)
    requires
        from <= to <= v.len(),
    ensures
        from <= start <= to,
        to - start == tail_run_length(v@.subrange(from as int, to as int), class),
{
    let mut i: usize = to;
    while i > from && class.contains(v[i - 1])
        invariant
            from <= i <= to <= v.len(),
            forall|j: int| i <= j < to ==> class.has(#[trigger] v@[j]),
        decreases i,
    {
        i -= 1;
    }
    proof {
        lemma_tail_run_length_is(v@.subrange(from as int, to as int), class, to - i);
    }
    i
}

/// The characters of `v` from `from` up to `to`, as a vector of their own.
pub fn copy_range(v: &Vec<char>, from: usize, to: usize) -> (r: Vec<char>)
    requires
        from <= to <= v.len(),
    ensures
        r@ == v@.subrange(from as int, to as int),
{
    let mut r: Vec<char> = Vec::new();
    let mut i: usize = from;
    while i < to
        invariant
            from <= i <= to <= v.len(),
            r@ == v@.subrange(from as int, i as int),
        decreases to - i,
    {
        r.push(v[i]);
        i += 1;
        assert(r@ =~= v@.subrange(from as int, i as int));
    }
    r
}

/// `s` without the blanks at its start and at its end.
pub open spec fn trimmed(s: Seq<char>) -> Seq<char> {
    let t = s.skip(run_length(s, CharClass::Blank) as int);
    t.take(t.len() - tail_run_length(t, CharClass::Blank))
}

/// A text that neither starts nor ends with a blank is left as it is.
pub proof fn lemma_trimmed_unchanged(s: Seq<char>)
    requires
        s.len() == 0 || (!is_blank(s[0]) && !is_blank(s.last())),
    ensures
        trimmed(s) == s,
{
    lemma_run_length_is(s, CharClass::Blank, 0);
    assert(s.skip(0) =~= s);
    lemma_tail_run_length_is(s, CharClass::Blank, 0);
    assert(s.take(s.len() as int) =~= s);
}

/// A trimmed text neither starts nor ends with a blank, and what was taken
/// off it is blanks only.
pub proof fn lemma_trimmed_ends(s: Seq<char>)
    ensures
        trimmed(s).len() == 0 || (!is_blank(trimmed(s)[0]) && !is_blank(trimmed(s).last())),
        ({
            let n = run_length(s, CharClass::Blank) as int;
            &&& n + trimmed(s).len() <= s.len()
            &&& trimmed(s) == s.subrange(n, n + trimmed(s).len())
            &&& forall|i: int| 0 <= i < n ==> is_blank(#[trigger] s[i])
            &&& forall|i: int| n + trimmed(s).len() <= i < s.len() ==> is_blank(#[trigger] s[i])
        }),
{
    let n = run_length(s, CharClass::Blank) as int;
    lemma_run_length_chars(s, CharClass::Blank);
    let t = s.skip(n);
    lemma_tail_run_length_chars(t, CharClass::Blank);
    let k = tail_run_length(t, CharClass::Blank) as int;
    assert(trimmed(s) =~= s.subrange(n, n + t.len() - k));
    if trimmed(s).len() > 0 {
        assert(trimmed(s)[0] == s[n]);
        assert(trimmed(s).last() == t[t.len() - k - 1]);
    }
    assert forall|i: int| n + trimmed(s).len() <= i < s.len() implies is_blank(#[trigger] s[i]) by {
        assert(s[i] == t[i - n]);
    }
}

pub fn trim(v: &Vec<char>) -> (r: Vec<char>)
    ensures
        r@ == trimmed(v@),
{
    let start = scan_run(v, 0, CharClass::Blank);
    let end = scan_run_back(v, start, v.len(), CharClass::Blank);
    proof {
        assert(v@.skip(0) =~= v@);
        assert(v@.subrange(start as int, v.len() as int) =~= v@.skip(start as int));
        assert(v@.subrange(start as int, end as int) =~= v@.skip(start as int).take(
            end - start,
        ));
    }
    copy_range(v, start, end)
}

/// The characters of a string, one by one.
pub fn chars_of(s: &str) -> (v: Vec<char>)
    ensures
        v@ == s@,
{
    let mut v: Vec<char> = Vec::new();
    for c in it: s.chars()
        invariant
            it.seq() == s@,
            v@ == s@.take(it.index() as int),
    {
        v.push(c);
        assert(v@ =~= s@.take(it.index() + 1));
    }
    assert(v@ =~= s@);
    v
}

} // verus!

verus! {

/// `String::push` of std puts the character at the end of the string and
/// leaves the rest as it was.
pub assume_specification[ String::push ](s: &mut String, c: char)
    ensures
        final(s)@ == old(s)@.push(c),
;

/// A string made of the characters of `v`.
pub fn string_of(v: &Vec<char>) -> (s: String)
    ensures
        s@ == v@,
{
    let mut s = String::new();
    let mut i: usize = 0;
    while i < v.len()
        invariant
            i <= v.len(),
            s@ == v@.take(i as int),
        decreases v.len() - i,
    {
        s.push(v[i]);
        i += 1;
        assert(s@ =~= v@.take(i as int));
    }
    assert(s@ =~= v@);
    s
}

/// The character sequences that the vectors of `v` hold, in order.
pub open spec fn views(v: Seq<Vec<char>>) -> Seq<Seq<char>> {
    Seq::new(v.len(), |i: int| v[i]@)
}

/// The character sequences that the strings of `v` hold, in order.
pub open spec fn string_views(v: Seq<String>) -> Seq<Seq<char>> {
    Seq::new(v.len(), |i: int| v[i]@)
}

/// The pieces of `s` between its commas: one more than it has commas.
pub open spec fn split_commas(s: Seq<char>) -> Seq<Seq<char>>
    decreases s.len(),
{
    let n = run_length(s, CharClass::Field) as int;
    if n >= s.len() {
        seq![s]
    } else {
        seq![s.take(n)] + split_commas(s.skip(n + 1))
    }
}

/// The pieces `f` with a comma between each two that follow one another.
pub open spec fn joined(f: Seq<Seq<char>>) -> Seq<char>
    decreases f.len(),
{
    if f.len() == 0 {
        Seq::empty()
    } else if f.len() == 1 {
        f[0]
    } else {
        f[0] + seq![','] + joined(f.drop_first())
    }
}

/// Parting at commas loses nothing: there is at least one piece, no piece
/// holds a comma, and the pieces joined by commas are the text.
pub proof fn lemma_split_commas_joined(s: Seq<char>)
    ensures
        split_commas(s).len() >= 1,
        joined(split_commas(s)) == s,
        forall|i: int, j: int|
            0 <= i < split_commas(s).len() && 0 <= j < split_commas(s)[i].len() ==> (
            #[trigger] split_commas(s)[i][j]) != ',',
    decreases s.len(),
{
    let n = run_length(s, CharClass::Field) as int;
    lemma_run_length_chars(s, CharClass::Field);
    if n < s.len() {
        let rest = split_commas(s.skip(n + 1));
        let all = split_commas(s);
        lemma_split_commas_joined(s.skip(n + 1));
        assert(all == seq![s.take(n)] + rest);
        assert(all.drop_first() =~= rest);
        assert(s =~= s.take(n) + seq![','] + s.skip(n + 1));
        assert forall|i: int, j: int| 0 <= i < all.len() && 0 <= j < all[i].len() implies (
        #[trigger] all[i][j]) != ',' by {
            if i == 0 {
                assert(all[0][j] == s[j]);
            } else {
                assert(all[i] == rest[i - 1]);
            }
        }
    }
}

/// The maximal runs of characters other than ASCII white space in `s`.
pub open spec fn words(s: Seq<char>) -> Seq<Seq<char>>
    decreases s.len(),
    via words_decreases
{
    let t = s.skip(run_length(s, CharClass::Space) as int);
    let n = run_length(t, CharClass::Word) as int;
    if n == 0 {
        Seq::empty()
    } else {
        seq![t.take(n)] + words(t.skip(n))
    }
}

#[via_fn]
proof fn words_decreases(s: Seq<char>) {
    lemma_run_length_chars(s, CharClass::Space);
    lemma_run_length_chars(s.skip(run_length(s, CharClass::Space) as int), CharClass::Word);
}

/// A text without ASCII white space that is not empty is one word.
pub proof fn lemma_one_word(s: Seq<char>)
    requires
        s.len() > 0,
        forall|i: int| 0 <= i < s.len() ==> !is_space(#[trigger] s[i]),
    ensures
        words(s) == seq![s],
{
    lemma_run_length_is(s, CharClass::Space, 0);
    assert(s.skip(0) =~= s);
    lemma_run_length_is(s, CharClass::Word, s.len() as int);
    let rest = s.skip(s.len() as int);
    assert(rest.len() == 0);
    assert(run_length(rest, CharClass::Space) == 0);
    assert(rest.skip(0) =~= rest);
    assert(run_length(rest, CharClass::Word) == 0);
    assert(words(rest) =~= Seq::<Seq<char>>::empty());
    assert(s.take(s.len() as int) =~= s);
    assert(seq![s] + Seq::<Seq<char>>::empty() =~= seq![s]);
}

pub fn split_at_commas(v: &Vec<char>) -> (r: Vec<Vec<char>>)
    ensures
        views(r@) == split_commas(v@),
{
    let mut r: Vec<Vec<char>> = Vec::new();
    let mut start: usize = 0;
    let mut done = false;
    proof {
        assert(v@.skip(0) =~= v@);
        assert(views(r@) + split_commas(v@) =~= split_commas(v@));
    }
    while !done
        invariant
            start <= v.len(),
            done ==> views(r@) == split_commas(v@),
            !done ==> split_commas(v@) == views(r@) + split_commas(v@.skip(start as int)),
        decreases (if done { 0 } else { v.len() - start + 1 }),
    {
        let end = scan_run(v, start, CharClass::Field);
        let field = copy_range(v, start, end);
        let ghost before = views(r@);
        let ghost s = v@.skip(start as int);
        r.push(field);
        proof {
            assert(views(r@) =~= before + seq![field@]);
            assert(s.take(end - start) =~= field@);
        }
        if end >= v.len() {
            done = true;
            proof {
                assert(s =~= field@);
            }
        } else {
            proof {
                assert(s.skip(end - start + 1) =~= v@.skip(end + 1));
                assert(before + (seq![field@] + split_commas(v@.skip(end + 1))) =~= views(r@)
                    + split_commas(v@.skip(end + 1)));
            }
            start = end + 1;
        }
    }
    r
}

pub fn split_words(v: &Vec<char>) -> (r: Vec<Vec<char>>)
    ensures
        views(r@) == words(v@),
{
    let mut r: Vec<Vec<char>> = Vec::new();
    let mut start: usize = 0;
    let mut done = false;
    proof {
        assert(v@.skip(0) =~= v@);
        assert(views(r@) + words(v@) =~= words(v@));
    }
    while !done
        invariant
            start <= v.len(),
            done ==> views(r@) == words(v@),
            !done ==> words(v@) == views(r@) + words(v@.skip(start as int)),
        decreases (if done { 0 } else { v.len() - start + 1 }),
    {
        let from = scan_run(v, start, CharClass::Space);
        let to = scan_run(v, from, CharClass::Word);
        let ghost s = v@.skip(start as int);
        let ghost t = s.skip(from - start);
        proof {
            assert(t =~= v@.skip(from as int));
        }
        if to == from {
            done = true;
            proof {
                assert(views(r@) + Seq::<Seq<char>>::empty() =~= views(r@));
            }
        } else {
            let word = copy_range(v, from, to);
            let ghost before = views(r@);
            r.push(word);
            proof {
                assert(views(r@) =~= before + seq![word@]);
                assert(t.take(to - from) =~= word@);
                assert(t.skip(to - from) =~= v@.skip(to as int));
                assert(before + (seq![word@] + words(v@.skip(to as int))) =~= views(r@) + words(
                    v@.skip(to as int),
                ));
            }
            start = to;
        }
    }
    r
}

} // verus!
