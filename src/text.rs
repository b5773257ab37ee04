use vstd::prelude::*;

verus! {

/// Whether `c` has Unicode's `White_Space` property.
pub open spec fn is_space(c: char) -> bool {
    ||| '\t' <= c <= '\r'
    ||| c == ' '
    ||| c == '\u{85}'
    ||| c == '\u{a0}'
    ||| c == '\u{1680}'
    ||| '\u{2000}' <= c <= '\u{200a}'
    ||| c == '\u{2028}'
    ||| c == '\u{2029}'
    ||| c == '\u{202f}'
    ||| c == '\u{205f}'
    ||| c == '\u{3000}'
}

/// Whether no character of `t` is white space.
pub open spec fn no_space(t: Seq<char>) -> bool {
    forall|i: int| 0 <= i < t.len() ==> !is_space(#[trigger] t[i])
}

/// `word` as a list of fields: empty when `word` is empty.
pub open spec fn word_field(word: Seq<char>) -> Seq<Seq<char>> {
    if word.len() == 0 {
        seq![]
    } else {
        seq![word]
    }
}

/// The whitespace-separated fields of `word + t`, where `word` holds no white space.
pub open spec fn fields_after(t: Seq<char>, word: Seq<char>) -> Seq<Seq<char>>
    decreases t.len(),
{
    if t.len() == 0 {
        word_field(word)
    } else if is_space(t[0]) {
        word_field(word) + fields_after(t.drop_first(), seq![])
    } else {
        fields_after(t.drop_first(), word.push(t[0]))
    }
}

/// The maximal runs of non-white-space characters of `t`, in order.
pub open spec fn fields(t: Seq<char>) -> Seq<Seq<char>> {
    fields_after(t, seq![])
}

/// Whether `c` is an ASCII decimal digit.
pub open spec fn is_digit(c: char) -> bool {
    '0' <= c <= '9'
}

/// The value of the digit `c`.
pub open spec fn digit_value(c: char) -> int {
    c as int - '0' as int
}

/// The digit of `d`, for `d` in `0..10`.
pub open spec fn digit_char(d: int) -> char {
    (d + '0' as int) as char
}

/// Whether `t` is a decimal numeral: one or more ASCII digits.
pub open spec fn is_numeral(t: Seq<char>) -> bool {
    t.len() > 0 && forall|i: int| 0 <= i < t.len() ==> is_digit(#[trigger] t[i])
}

/// The value of the numeral `t`, most significant digit first.
pub open spec fn numeral_value(t: Seq<char>) -> int
    decreases t.len(),
{
    if t.len() == 0 {
        0
    } else {
        numeral_value(t.drop_last()) * 10 + digit_value(t.last())
    }
}

/// The number that `t` writes in decimal, if it is a numeral whose value is
/// at most `max`.
pub open spec fn number_of_text(t: Seq<char>, max: int) -> Option<int> {
    if is_numeral(t) && numeral_value(t) <= max {
        Some(numeral_value(t))
    } else {
        None
    }
}

/// `n` in decimal, without leading zeros.
pub open spec fn decimal_text(n: nat) -> Seq<char>
    decreases n,
{
    if n < 10 {
        seq![digit_char(n as int)]
    } else {
        decimal_text(n / 10).push(digit_char((n % 10) as int))
    }
}

/// Relies on `String::push`: appends `c` to the end of `s`.
#[verifier::external_body]
pub(crate) fn push_char(s: &mut String, c: char)
    ensures
        final(s)@ == old(s)@.push(c),
{
    s.push(c)
}

/// The characters of `s`, in order.
pub fn chars_of(s: &str) -> (r: Vec<char>)
    ensures
        r@ == s@,
{
    let mut r: Vec<char> = Vec::new();
    for c in it: s.chars()
        invariant
            r@ == it.seq().take(it.index()),
    {
        r.push(c);
    }
    r
}

/// Whether `c` has Unicode's `White_Space` property.
pub fn is_space_char(c: char) -> (r: bool)
    ensures
        r == is_space(c),
{
    ('\t' <= c && c <= '\r') || c == ' ' || c == '\u{85}' || c == '\u{a0}' || c == '\u{1680}' || (
    '\u{2000}' <= c && c <= '\u{200a}') || c == '\u{2028}' || c == '\u{2029}' || c == '\u{202f}'
        || c == '\u{205f}' || c == '\u{3000}'
}

/// The fields that the spans `spans` mark out in `t`.
pub open spec fn spans_text(t: Seq<char>, spans: Seq<(usize, usize)>) -> Seq<Seq<char>> {
    Seq::new(spans.len(), |k: int| t.subrange(spans[k].0 as int, spans[k].1 as int))
}

/// The start and end of each whitespace-separated field of `t`.
pub fn field_spans(t: &[char]) -> (r: Vec<(usize, usize)>)
    ensures
        forall|k: int| 0 <= k < r.len() ==> #[trigger] r[k].0 <= r[k].1 <= t@.len(),
        spans_text(t@, r@) == fields(t@),
{
    let mut r: Vec<(usize, usize)> = Vec::new();
    let mut start: usize = 0;
    let mut i: usize = 0;
    assert(t@.skip(0) =~= t@);
    assert(t@.subrange(0, 0) =~= Seq::<char>::empty());
    assert(spans_text(t@, r@) + fields(t@) =~= fields(t@));
    while i < t.len()
        invariant
            start <= i <= t@.len(),
            forall|k: int| 0 <= k < r.len() ==> #[trigger] r[k].0 <= r[k].1 <= t@.len(),
            fields(t@) == spans_text(t@, r@) + fields_after(
                t@.skip(i as int),
                t@.subrange(start as int, i as int),
            ),
        decreases t@.len() - i,
    {
        let ghost w = t@.subrange(start as int, i as int);
        assert(t@.skip(i as int).drop_first() =~= t@.skip(i + 1));
        assert(t@.skip(i as int)[0] == t@[i as int]);
        if is_space_char(t[i]) {
            let ghost before = spans_text(t@, r@);
            if start < i {
                r.push((start, i));
                assert(spans_text(t@, r@) =~= before + word_field(w));
                assert(forall|k: int| 0 <= k < r.len() ==> #[trigger] r[k].0 <= r[k].1 <= t@.len());
            } else {
                assert(spans_text(t@, r@) + word_field(w) =~= spans_text(t@, r@));
            }
            i = i + 1;
            start = i;
            assert(t@.subrange(start as int, i as int) =~= Seq::<char>::empty());
            assert(fields(t@) =~= spans_text(t@, r@) + fields_after(
                t@.skip(i as int),
                t@.subrange(start as int, i as int),
            ));
        } else {
            i = i + 1;
            assert(t@.subrange(start as int, i as int) =~= w.push(t@[i - 1]));
        }
        assert(forall|k: int| 0 <= k < r.len() ==> #[trigger] r[k].0 <= r[k].1 <= t@.len());
    }
    let ghost w = t@.subrange(start as int, i as int);
    if start < i {
        let ghost before = spans_text(t@, r@);
        r.push((start, i));
        assert(spans_text(t@, r@) =~= before + word_field(w));
    } else {
        assert(spans_text(t@, r@) + word_field(w) =~= spans_text(t@, r@));
    }
    r
}

proof fn lemma_numeral_prefix(t: Seq<char>, j: int)
    requires
        forall|i: int| 0 <= i < t.len() ==> is_digit(#[trigger] t[i]),
        0 <= j <= t.len(),
    ensures
        0 <= numeral_value(t.take(j)) <= numeral_value(t),
    decreases t.len(),
{
    if j == t.len() {
        assert(t.take(j) =~= t);
        if t.len() > 0 {
            lemma_numeral_prefix(t.drop_last(), j - 1);
        }
    } else {
        lemma_numeral_prefix(t.drop_last(), j);
        assert(t.drop_last().take(j) =~= t.take(j));
        lemma_numeral_prefix(t.drop_last(), t.len() - 1);
        assert(t.drop_last().take(t.len() - 1) =~= t.drop_last());
    }
}

/// A number written in decimal is a numeral without white space, and reads
/// back as the same number.
pub proof fn lemma_decimal_round_trip(n: nat)
    ensures
        is_numeral(decimal_text(n)),
        numeral_value(decimal_text(n)) == n,
        no_space(decimal_text(n)),
    decreases n,
{
    if n >= 10 {
        lemma_decimal_round_trip(n / 10);
        let t = decimal_text(n);
        assert(t.drop_last() =~= decimal_text(n / 10));
        assert(t.last() == digit_char((n % 10) as int));
        assert(digit_value(t.last()) == n % 10);
        assert(numeral_value(t) == numeral_value(decimal_text(n / 10)) * 10 + n % 10);
        assert((n / 10) * 10 + n % 10 == n);
    } else {
        let t = decimal_text(n);
        assert(t.drop_last() =~= Seq::<char>::empty());
        assert(numeral_value(t.drop_last()) == 0);
        assert(digit_value(t.last()) == n);
    }
}

/// The number that `t` writes in decimal, when it is at most `max`.
pub fn parse_number(t: &[char], max: u16) -> (r: Option<u16>)
    ensures
        number_of_text(t@, max as int) matches Some(n) ==> r == Some(n as u16),
        number_of_text(t@, max as int) is None ==> r is None,
        r matches Some(v) ==> v <= max && number_of_text(t@, max as int) == Some(v as int),
{
    if t.len() == 0 {
        return None;
    }
    let mut v: u32 = 0;
    let mut i: usize = 0;
    assert(t@.take(0) =~= Seq::<char>::empty());
    while i < t.len()
        invariant
            i <= t@.len(),
            forall|j: int| 0 <= j < i ==> is_digit(#[trigger] t@[j]),
            v == numeral_value(t@.take(i as int)),
            v <= max,
        decreases t@.len() - i,
    {
        let c = t[i];
        if !('0' <= c && c <= '9') {
            return None;
        }
        let nv = v * 10 + (c as u32 - 48);
        assert(t@.take(i + 1).drop_last() =~= t@.take(i as int));
        if nv > max as u32 {
            proof {
                if is_numeral(t@) {
                    lemma_numeral_prefix(t@, i + 1);
                }
            }
            return None;
        }
        v = nv;
        i = i + 1;
    }
    assert(t@.take(i as int) =~= t@);
    Some(v as u16)
}

/// Appends `n` in decimal to `out`.
pub(crate) fn push_decimal(out: &mut String, n: u16)
    ensures
        final(out)@ == old(out)@ + decimal_text(n as nat),
    decreases n,
{
    if n >= 10 {
        push_decimal(out, n / 10);
    }
    push_char(out, ((n % 10) as u8 + 48u8) as char);
    proof {
        if n >= 10 {
            assert(old(out)@ + decimal_text(n as nat) =~= (old(out)@ + decimal_text(
                (n / 10) as nat,
            )).push(digit_char((n % 10) as int)));
        } else {
            assert(old(out)@ + decimal_text(n as nat) =~= old(out)@.push(
                digit_char((n % 10) as int),
            ));
        }
    }
}

proof fn lemma_fields_after_word(w: Seq<char>, rest: Seq<char>, word: Seq<char>)
    requires
        no_space(w),
    ensures
        fields_after(w + rest, word) == fields_after(rest, word + w),
    decreases w.len(),
{
    if w.len() == 0 {
        assert(w + rest =~= rest);
        assert(word + w =~= word);
    } else {
        assert((w + rest)[0] == w[0]);
        assert((w + rest).drop_first() =~= w.drop_first() + rest);
        assert(!is_space(w[0]));
        lemma_fields_after_word(w.drop_first(), rest, word.push(w[0]));
        assert(word.push(w[0]) + w.drop_first() =~= word + w);
    }
}

/// A field followed by a space and more text: the field comes first, then
/// the fields of the rest.
pub proof fn lemma_fields_cons(w: Seq<char>, rest: Seq<char>)
    requires
        no_space(w),
        w.len() > 0,
    ensures
        fields(w + seq![' '] + rest) == seq![w] + fields(rest),
{
    let t = seq![' '] + rest;
    assert(w + seq![' '] + rest =~= w + t);
    lemma_fields_after_word(w, t, seq![]);
    assert(seq![] + w =~= w);
    assert(t[0] == ' ');
    assert(t.drop_first() =~= rest);
}

/// Text that is one field, without white space, has that field alone.
pub proof fn lemma_fields_single(w: Seq<char>)
    requires
        no_space(w),
        w.len() > 0,
    ensures
        fields(w) == seq![w],
{
    lemma_fields_after_word(w, seq![], seq![]);
    assert(w + seq![] =~= w);
    assert(seq![] + w =~= w);
}

} // verus!
