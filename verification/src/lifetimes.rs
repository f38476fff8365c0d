use vstd::prelude::*;
use vstd::string::StrSliceExecFns;

verus! {

/// A borrowed piece of some longer text; it cannot outlive that text.
pub struct Excerpt<'a> {
    pub part: &'a str,
}

impl<'a> Excerpt<'a> {
    /// The borrowed text; it lives as long as the text it was taken from,
    /// not merely as long as this excerpt.
    pub fn part(&self) -> (r: &'a str)
        ensures
            r == self.part,
    {
        self.part
    }
}

/// The Unicode `White_Space` property, the set of characters for which
/// `char::is_whitespace` holds and at which `str::split_whitespace` splits.
pub open spec fn is_white_space(c: char) -> bool {
    let u = c as u32;
    ||| 0x09 <= u <= 0x0d
    ||| u == 0x20
    ||| u == 0x85
    ||| u == 0xa0
    ||| u == 0x1680
    ||| 0x2000 <= u <= 0x200a
    ||| u == 0x2028
    ||| u == 0x2029
    ||| u == 0x202f
    ||| u == 0x205f
    ||| u == 0x3000
}

/// Whether `c` has the Unicode `White_Space` property.
fn char_is_whitespace(c: char) -> (b: bool)
    ensures
        b == is_white_space(c),
{
    let u = c as u32;
    (0x09 <= u && u <= 0x0d) || u == 0x20 || u == 0x85 || u == 0xa0 || u == 0x1680 || (0x2000
        <= u && u <= 0x200a) || u == 0x2028 || u == 0x2029 || u == 0x202f || u == 0x205f || u
        == 0x3000
}

/// Every character of `s` is whitespace (true of the empty text too).
pub open spec fn all_white_space(s: Seq<char>) -> bool {
    forall|i: int| 0 <= i < s.len() ==> #[trigger] is_white_space(s[i])
}

/// `s[a..b]` is the first maximal run of non-whitespace characters of `s`.
pub open spec fn first_word_span(s: Seq<char>, a: int, b: int) -> bool {
    &&& 0 <= a < b <= s.len()
    &&& forall|i: int| 0 <= i < a ==> #[trigger] is_white_space(s[i])
    &&& forall|i: int| a <= i < b ==> !#[trigger] is_white_space(s[i])
    &&& (b == s.len() || is_white_space(s[b]))
}

/// What `first_word` gives back: the first whitespace-separated word of `s`,
/// or `s` itself where `s` holds no word at all.
pub open spec fn first_word_of(s: Seq<char>) -> Seq<char> {
    if all_white_space(s) {
        s
    } else {
        let (a, b) = choose|a: int, b: int| first_word_span(s, a, b);
        s.subrange(a, b)
    }
}

/// Index `i` of `s` starts a word: it is not whitespace, and it is either the
/// first character or follows a whitespace character.
pub open spec fn starts_word(s: Seq<char>, i: int) -> bool {
    &&& 0 <= i < s.len()
    &&& !is_white_space(s[i])
    &&& (i == 0 || is_white_space(s[i - 1]))
}

/// The number of whitespace-separated words of `s`.
pub open spec fn word_count_of(s: Seq<char>) -> nat
    decreases s.len(),
{
    if s.len() == 0 {
        0
    } else {
        word_count_of(s.drop_last()) + if starts_word(s, s.len() - 1) {
            1nat
        } else {
            0nat
        }
    }
}

/// `s[..k]` is the text before the first `'.'` of `s` (all of `s` if it has none).
pub open spec fn sentence_end(s: Seq<char>, k: int) -> bool {
    &&& 0 <= k <= s.len()
    &&& forall|i: int| 0 <= i < k ==> #[trigger] s[i] != '.'
    &&& (k == s.len() || s[k] == '.')
}

/// What `first_sentence` gives back: the text of `s` up to its first `'.'`.
pub open spec fn first_sentence_of(s: Seq<char>) -> Seq<char> {
    s.take(choose|k: int| sentence_end(s, k))
}

/// Two spans that both satisfy `first_word_span` are the same span.
pub proof fn lemma_first_word_span_unique(s: Seq<char>, a1: int, b1: int, a2: int, b2: int)
    requires
        first_word_span(s, a1, b1),
        first_word_span(s, a2, b2),
    ensures
        a1 == a2,
        b1 == b2,
{
    if a1 < a2 {
        assert(is_white_space(s[a1]));
    } else if a2 < a1 {
        assert(is_white_space(s[a2]));
    }
    if b1 < b2 {
        assert(!is_white_space(s[b1]));
    } else if b2 < b1 {
        assert(!is_white_space(s[b2]));
    }
}

/// The first `'.'` of a text is at one place only.
proof fn lemma_sentence_end_unique(s: Seq<char>, k1: int, k2: int)
    requires
        sentence_end(s, k1),
        sentence_end(s, k2),
    ensures
        k1 == k2,
{
    if k1 < k2 {
        assert(s[k1] != '.');
    } else if k2 < k1 {
        assert(s[k2] != '.');
    }
}

/// A text has no words exactly when it is all whitespace.
pub proof fn lemma_no_words_iff_all_white_space(s: Seq<char>)
    ensures
        word_count_of(s) == 0 <==> all_white_space(s),
    decreases s.len(),
{
    if s.len() > 0 {
        let p = s.drop_last();
        lemma_no_words_iff_all_white_space(p);
        if all_white_space(s) {
            assert forall|i: int| 0 <= i < p.len() implies #[trigger] is_white_space(p[i]) by {
                assert(is_white_space(s[i]));
            }
            assert(is_white_space(s[s.len() - 1]));
        }
        if word_count_of(s) == 0 {
            assert forall|i: int| 0 <= i < s.len() implies #[trigger] is_white_space(s[i]) by {
                if i < s.len() - 1 {
                    assert(is_white_space(p[i]));
                } else if s.len() > 1 {
                    assert(is_white_space(p[s.len() - 2]));
                }
            }
        }
    }
}

/// Where a text has a word, its first word is a non-empty run of
/// non-whitespace characters taken from the text; otherwise the text comes
/// back whole.
pub proof fn lemma_first_word_shape(s: Seq<char>)
    ensures
        all_white_space(s) ==> first_word_of(s) == s,
        !all_white_space(s) ==> {
            &&& first_word_of(s).len() > 0
            &&& !all_white_space(first_word_of(s))
            &&& forall|i: int|
                0 <= i < first_word_of(s).len() ==> !#[trigger] is_white_space(first_word_of(s)[i])
            &&& exists|a: int, b: int|
                #![trigger s.subrange(a, b)]
                {
                    &&& 0 <= a < b <= s.len()
                    &&& first_word_of(s) == s.subrange(a, b)
                    &&& forall|i: int| 0 <= i < a ==> #[trigger] is_white_space(s[i])
                    &&& (b == s.len() || is_white_space(s[b]))
                }
        },
{
    if !all_white_space(s) {
        let a0 = choose|i: int| 0 <= i < s.len() && !#[trigger] is_white_space(s[i]);
        let (a, b) = first_word_witness(s, a0);
        let (a2, b2) = choose|a2: int, b2: int| first_word_span(s, a2, b2);
        lemma_first_word_span_unique(s, a, b, a2, b2);
        let w = s.subrange(a, b);
        assert(w == first_word_of(s));
        assert(!is_white_space(w[0]));
        assert forall|i: int| 0 <= i < w.len() implies !#[trigger] is_white_space(w[i]) by {
            assert(w[i] == s[a + i]);
        }
    }
}

/// A text with a non-whitespace character at `j` has a first word.
proof fn first_word_witness(s: Seq<char>, j: int) -> (ab: (int, int))
    requires
        0 <= j < s.len(),
        !is_white_space(s[j]),
    ensures
        first_word_span(s, ab.0, ab.1),
    decreases j,
{
    if exists|i: int| 0 <= i < j && !#[trigger] is_white_space(s[i]) {
        let i = choose|i: int| 0 <= i < j && !#[trigger] is_white_space(s[i]);
        first_word_witness(s, i)
    } else {
        (j, word_end(s, j, j + 1))
    }
}

/// The end of the run of non-whitespace characters that starts at `a` and
/// is known to reach `b`.
proof fn word_end(s: Seq<char>, a: int, b: int) -> (e: int)
    requires
        0 <= a < b <= s.len(),
        forall|i: int| a <= i < b ==> !#[trigger] is_white_space(s[i]),
    ensures
        b <= e <= s.len(),
        forall|i: int| a <= i < e ==> !#[trigger] is_white_space(s[i]),
        e == s.len() || is_white_space(s[e]),
    decreases s.len() - b,
{
    if b == s.len() || is_white_space(s[b]) {
        b
    } else {
        word_end(s, a, b + 1)
    }
}

/// Taking the first word twice gives the same as taking it once.
pub proof fn lemma_first_word_idempotent(s: Seq<char>)
    ensures
        first_word_of(first_word_of(s)) == first_word_of(s),
{
    lemma_first_word_shape(s);
    let w = first_word_of(s);
    if !all_white_space(s) {
        assert(first_word_span(w, 0, w.len() as int));
        let (a2, b2) = choose|a2: int, b2: int| first_word_span(w, a2, b2);
        lemma_first_word_span_unique(w, 0, w.len() as int, a2, b2);
        assert(w.subrange(0, w.len() as int) =~= w);
    }
}

/// The first sentence is a prefix of the text with no `'.'` in it, and it is
/// the whole text exactly when the text has no `'.'`.
pub proof fn lemma_first_sentence_shape(s: Seq<char>)
    ensures
        first_sentence_of(s).is_prefix_of(s),
        forall|i: int| 0 <= i < first_sentence_of(s).len() ==> #[trigger] first_sentence_of(s)[i] != '.',
        first_sentence_of(s) == s <==> !s.contains('.'),
        first_sentence_of(s).len() < s.len() ==> s[first_sentence_of(s).len() as int] == '.',
{
    let k0 = sentence_end_witness(s, 0);
    let k = choose|k: int| sentence_end(s, k);
    lemma_sentence_end_unique(s, k0, k);
    let r = first_sentence_of(s);
    assert(r =~= s.take(k));
    assert forall|i: int| 0 <= i < r.len() implies #[trigger] r[i] != '.' by {
        assert(s[i] != '.');
    }
    if !s.contains('.') {
        assert(k == s.len()) by {
            if k < s.len() {
                assert(s[k] == '.');
            }
        }
        assert(r =~= s);
    }
    if r == s {
        assert forall|i: int| 0 <= i < s.len() implies s[i] != '.' by {
            assert(r[i] != '.');
        }
    }
}

/// Every text has a first `'.'` or none, searching from `k` on.
proof fn sentence_end_witness(s: Seq<char>, k: int) -> (e: int)
    requires
        0 <= k <= s.len(),
        forall|i: int| 0 <= i < k ==> #[trigger] s[i] != '.',
    ensures
        sentence_end(s, e),
    decreases s.len() - k,
{
    if k == s.len() || s[k] == '.' {
        k
    } else {
        sentence_end_witness(s, k + 1)
    }
}

/// A text of no characters has no words.
pub proof fn lemma_word_count_empty()
    ensures
        word_count_of(Seq::<char>::empty()) == 0,
{
}

/// Adding one character at the end adds one word exactly when that character
/// is not whitespace and the text before it was empty or ended in whitespace;
/// otherwise the count stays as it was.
pub proof fn lemma_word_count_push(s: Seq<char>, c: char)
    ensures
        word_count_of(s.push(c)) == word_count_of(s) + if !is_white_space(c) && (s.len() == 0
            || is_white_space(s[s.len() - 1])) {
            1int
        } else {
            0int
        },
{
    let t = s.push(c);
    assert(t.drop_last() =~= s);
    assert(t[t.len() - 1] == c);
    if s.len() > 0 {
        assert(t[t.len() - 2] == s[s.len() - 1]);
    }
}

/// Appending a space and then a non-empty whitespace-free word to any text
/// adds exactly one word, however many words the text already had.
pub proof fn lemma_word_count_append_word(s: Seq<char>, w: Seq<char>)
    requires
        w.len() > 0,
        forall|i: int| 0 <= i < w.len() ==> !#[trigger] is_white_space(w[i]),
    ensures
        word_count_of(s + seq![' '] + w) == word_count_of(s) + 1,
    decreases w.len(),
{
    let sp = s + seq![' '];
    assert(sp =~= s.push(' '));
    lemma_word_count_push(s, ' ');
    assert(is_white_space(' '));
    if w.len() == 1 {
        assert(sp + w =~= sp.push(w[0]));
        lemma_word_count_push(sp, w[0]);
        assert(sp[sp.len() - 1] == ' ');
    } else {
        let v = w.drop_last();
        assert(forall|i: int| 0 <= i < v.len() ==> v[i] == w[i]);
        lemma_word_count_append_word(s, v);
        assert(sp + w =~= (sp + v).push(w[w.len() - 1]));
        lemma_word_count_push(sp + v, w[w.len() - 1]);
        let u = sp + v;
        assert(u[u.len() - 1] == w[w.len() - 2]);
        assert(!is_white_space(w[w.len() - 2]));
    }
}

/// A text never has more words than characters.
pub proof fn lemma_word_count_at_most_len(s: Seq<char>)
    ensures
        word_count_of(s) <= s.len(),
    decreases s.len(),
{
    if s.len() > 0 {
        lemma_word_count_at_most_len(s.drop_last());
    }
}

/// Returns whichever of the two strings is longer in bytes, the first one on a tie.
pub fn longest<'a>(x: &'a str, y: &'a str) -> (r: &'a str)
    ensures
        r == (if x.len() >= y.len() { x } else { y }),
        r.len() >= x.len(),
        r.len() >= y.len(),
{
    if x.len() >= y.len() {
        x
    } else {
        y
    }
}

/// Returns the first whitespace-separated word of `s`; where `s` has none
/// (it is empty or all whitespace), returns `s` itself.
pub fn first_word(s: &str) -> (w: &str)
    ensures
        w@ == first_word_of(s@),
{
    let n = s.unicode_len();
    let mut a: usize = 0;
    loop
        invariant
            n == s@.len(),
            a <= n,
            forall|i: int| 0 <= i < a ==> #[trigger] is_white_space(s@[i]),
        ensures
            a < n,
            !is_white_space(s@[a as int]),
            forall|i: int| 0 <= i < a ==> #[trigger] is_white_space(s@[i]),
        decreases n - a,
    {
        if a == n {
            return s;
        }
        if !char_is_whitespace(s.get_char(a)) {
            break;
        }
        a = a + 1;
    }
    let mut b: usize = a + 1;
    loop
        invariant
            n == s@.len(),
            a < b <= n,
            forall|i: int| 0 <= i < a ==> #[trigger] is_white_space(s@[i]),
            forall|i: int| a <= i < b ==> !#[trigger] is_white_space(s@[i]),
        ensures
            a < b <= n,
            forall|i: int| 0 <= i < a ==> #[trigger] is_white_space(s@[i]),
            forall|i: int| a <= i < b ==> !#[trigger] is_white_space(s@[i]),
            b == n || is_white_space(s@[b as int]),
        decreases n - b,
    {
        if b == n {
            break;
        }
        if char_is_whitespace(s.get_char(b)) {
            break;
        }
        b = b + 1;
    }
    proof {
        let ghost t = s@;
        assert(first_word_span(t, a as int, b as int));
        assert(!all_white_space(t)) by {
            assert(!is_white_space(t[a as int]));
        }
        let (a2, b2) = choose|a2: int, b2: int| first_word_span(t, a2, b2);
        lemma_first_word_span_unique(t, a as int, b as int, a2, b2);
    }
    s.substring_char(a, b)
}

/// Counts the whitespace-separated words of `s`.
pub fn word_count(s: &str) -> (c: usize)
    ensures
        c == word_count_of(s@),
{
    let n = s.unicode_len();
    let mut count: usize = 0;
    let mut prev_white = true;
    let mut i: usize = 0;
    while i < n
        invariant
            n == s@.len(),
            i <= n,
            count == word_count_of(s@.take(i as int)),
            count <= i,
            i > 0 ==> prev_white == is_white_space(s@[i - 1]),
            i == 0 ==> prev_white,
        decreases n - i,
    {
        let c = s.get_char(i);
        let white = char_is_whitespace(c);
        proof {
            let t = s@.take(i + 1);
            assert(t.drop_last() =~= s@.take(i as int));
            assert(starts_word(t, i as int) == starts_word(s@, i as int));
        }
        if !white && prev_white {
            count = count + 1;
        }
        prev_white = white;
        i = i + 1;
    }
    assert(s@.take(n as int) =~= s@);
    count
}

/// Returns the text of `s` before its first `'.'`, or all of `s` if it has none.
pub fn first_sentence(s: &str) -> (r: &str)
    ensures
        r@ == first_sentence_of(s@),
{
    let n = s.unicode_len();
    let mut k: usize = 0;
    while k < n
        invariant
            n == s@.len(),
            k <= n,
            forall|i: int| 0 <= i < k ==> #[trigger] s@[i] != '.',
        ensures
            k <= n,
            forall|i: int| 0 <= i < k ==> #[trigger] s@[i] != '.',
            k == n || s@[k as int] == '.',
        decreases n - k,
    {
        if s.get_char(k) == '.' {
            break;
        }
        k = k + 1;
    }
    proof {
        assert(sentence_end(s@, k as int));
        let k2 = choose|k2: int| sentence_end(s@, k2);
        lemma_sentence_end_unique(s@, k as int, k2);
    }
    s.substring_char(0, k)
}

/// Returns its first argument; the result borrows from `x` alone, so `y`
/// may die first.
pub fn explicit<'a>(x: &'a str, _y: &str) -> (r: &'a str)
    ensures
        r == x,
{
    x
}

/// Returns its first argument; the two arguments have independent lifetimes.
pub fn first_of<'a, 'b>(x: &'a str, _y: &'b str) -> (r: &'a str)
    ensures
        r == x,
{
    x
}

/// Returns the short-lived argument; the long-lived one outlives it and is
/// only looked at.
pub fn use_long_return_short<'s, 'l: 's>(short: &'s str, _long: &'l str) -> (r: &'s str)
    ensures
        r == short,
{
    short
}

/// Moves a value that holds no borrows onto the heap.
pub fn store<T: 'static>(val: T) -> (b: Box<T>)
    ensures
        *b == val,
{
    Box::new(val)
}

/// Moves a value that holds no borrows onto the heap, for keeping as long as
/// the caller likes.
pub fn store_forever<T: 'static>(val: T) -> (b: Box<T>)
    ensures
        *b == val,
{
    Box::new(val)
}

/// Calls `f` on `s`; `f` accepts a borrow of any lifetime.
pub fn apply<F>(f: F, s: &str) -> (n: usize) where F: for <'a>Fn(&'a str) -> usize
    requires
        f.requires((s,)),
    ensures
        f.ensures((s,), n),
{
    f(s)
}

} // verus!
