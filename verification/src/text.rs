//! Codecs between the textual content of an attribute and typed values.
//!
//! Content is a string of bytes as it stands in the attribute file. Numbers
//! are written in decimal, truth values as `1` and `0`, lists as words
//! separated by white space.

use vstd::prelude::*;
use vstd::slice::slice_subrange;
use crate::error::{texts, Ev3Error, Ev3Result};

verus! {

/// Whether a byte is a decimal digit.
pub open spec fn is_digit(b: u8) -> bool {
    48 <= b <= 57
}

/// Whether a byte is ASCII white space.
pub open spec fn is_space(b: u8) -> bool {
    b == 32 || (9 <= b <= 13)
}

/// Whether every byte is a decimal digit.
pub open spec fn all_digits(s: Seq<u8>) -> bool {
    forall|i: int| 0 <= i < s.len() ==> is_digit(#[trigger] s[i])
}

/// The number that a string of decimal digits denotes.
pub open spec fn digits_value(s: Seq<u8>) -> nat
    decreases s.len(),
{
    if s.len() == 0 {
        0
    } else {
        digits_value(s.drop_last()) * 10 + (s.last() - 48) as nat
    }
}

/// The decimal digits of a number, without leading zeros.
pub open spec fn digits_of(n: nat) -> Seq<u8>
    decreases n,
{
    if n < 10 {
        seq![(48 + n) as u8]
    } else {
        digits_of(n / 10).push((48 + n % 10) as u8)
    }
}

/// The number that a decimal numeral denotes: an optional sign, then one
/// digit or more. `None` for any other text.
pub open spec fn decimal_value(s: Seq<u8>) -> Option<int> {
    if s.len() > 0 && (s[0] == 45 || s[0] == 43) {
        let body = s.skip(1);
        if body.len() > 0 && all_digits(body) {
            if s[0] == 45 {
                Some(-(digits_value(body) as int))
            } else {
                Some(digits_value(body) as int)
            }
        } else {
            None
        }
    } else if s.len() > 0 && all_digits(s) {
        Some(digits_value(s) as int)
    } else {
        None
    }
}

/// The number that a numeral denotes, if it lies between `lo` and `hi`.
pub open spec fn bounded_value(s: Seq<u8>, lo: int, hi: int) -> Option<int> {
    match decimal_value(s) {
        Some(v) => if lo <= v <= hi {
            Some(v)
        } else {
            None
        },
        None => None,
    }
}

/// The canonical numeral of an integer.
pub open spec fn int_text(v: int) -> Seq<u8> {
    if v < 0 {
        seq![45u8] + digits_of((-v) as nat)
    } else {
        digits_of(v as nat)
    }
}

/// The content without the line breaks at its end.
pub open spec fn trimmed(s: Seq<u8>) -> Seq<u8>
    decreases s.len(),
{
    if s.len() > 0 && s.last() == 10 {
        trimmed(s.drop_last())
    } else {
        s
    }
}

/// The truth value that a content denotes: `1` is true, `0` is false.
pub open spec fn bool_value(s: Seq<u8>) -> Option<bool> {
    if s == seq![49u8] {
        Some(true)
    } else if s == seq![48u8] {
        Some(false)
    } else {
        None
    }
}

/// The canonical content of a truth value.
pub open spec fn bool_text(v: bool) -> Seq<u8> {
    if v {
        seq![49u8]
    } else {
        seq![48u8]
    }
}

/// The words of `s` from index `from` on, where `word` holds the bytes of the
/// word that is open at `from`.
pub open spec fn words_from(s: Seq<u8>, from: int, word: Seq<u8>) -> Seq<Seq<u8>>
    decreases s.len() - from,
{
    let closed = if word.len() > 0 {
        seq![word]
    } else {
        Seq::empty()
    };
    if from < 0 || from >= s.len() {
        closed
    } else if is_space(s[from]) {
        closed + words_from(s, from + 1, Seq::empty())
    } else {
        words_from(s, from + 1, word.push(s[from]))
    }
}

/// The maximal runs of bytes that are not white space, in order.
pub open spec fn words(s: Seq<u8>) -> Seq<Seq<u8>> {
    words_from(s, 0, Seq::empty())
}

/// The byte strings of a list of buffers, in order.
pub open spec fn byte_texts(v: Seq<Vec<u8>>) -> Seq<Seq<u8>> {
    Seq::new(v.len(), |i: int| v[i]@)
}

/// A longer string of digits denotes no smaller number than its prefix.
pub proof fn lemma_digits_value_grows(s: Seq<u8>, k: int)
    requires
        0 <= k <= s.len(),
        all_digits(s),
    ensures
        digits_value(s.take(k)) <= digits_value(s),
    decreases s.len() - k,
{
    if k == s.len() {
        assert(s.take(k) =~= s);
    } else {
        assert(s.take(k + 1).drop_last() =~= s.take(k));
        assert(is_digit(s[k]));
        assert(s.take(k + 1).last() == s[k]);
        lemma_digits_value_grows(s, k + 1);
    }
}

/// The digits of a number are digits, at least one, and denote the number.
pub proof fn lemma_digits_of(n: nat)
    ensures
        digits_of(n).len() >= 1,
        all_digits(digits_of(n)),
        digits_value(digits_of(n)) == n,
    decreases n,
{
    if n < 10 {
        let d = digits_of(n);
        assert(d.drop_last() =~= Seq::<u8>::empty());
        assert(digits_value(d.drop_last()) == 0);
    } else {
        lemma_digits_of(n / 10);
        let d = digits_of(n);
        assert(d.drop_last() =~= digits_of(n / 10));
        assert(d.last() == (48 + n % 10) as u8);
    }
}

/// Writing an integer and reading the text back gives the integer, within
/// any bounds that hold it.
pub proof fn lemma_int_round_trip(v: int, lo: int, hi: int)
    requires
        lo <= v <= hi,
    ensures
        bounded_value(int_text(v), lo, hi) == Some(v),
        trimmed(int_text(v)) == int_text(v),
{
    let t = int_text(v);
    if v < 0 {
        let d = digits_of((-v) as nat);
        lemma_digits_of((-v) as nat);
        assert(t.skip(1) =~= d);
        assert(t[0] == 45);
        assert(t.last() == d.last());
        assert(is_digit(d[d.len() - 1]));
    } else {
        lemma_digits_of(v as nat);
        assert(is_digit(t[0]));
        assert(is_digit(t[t.len() - 1]));
    }
}

/// Writing a truth value and reading the text back gives the truth value.
pub proof fn lemma_bool_round_trip(v: bool)
    ensures
        bool_value(bool_text(v)) == Some(v),
        trimmed(bool_text(v)) == bool_text(v),
{
    assert(seq![49u8] != seq![48u8]) by {
        assert(seq![49u8][0] != seq![48u8][0]);
    }
    assert(bool_text(v).last() != 10);
}

/// A text that does not end in a line break is read back as it was written.
pub proof fn lemma_text_round_trip(text: Seq<u8>)
    requires
        text.len() == 0 || text.last() != 10,
    ensures
        trimmed(text) == text,
{
}

/// Whether no byte of a word is white space.
pub open spec fn is_word(word: Seq<u8>) -> bool {
    forall|i: int| 0 <= i < word.len() ==> !is_space(#[trigger] word[i])
}

/// Every word that a split gives holds a byte at least and no white space.
pub proof fn lemma_words_are_words(s: Seq<u8>, from: int, word: Seq<u8>)
    requires
        0 <= from,
        is_word(word),
    ensures
        forall|k: int|
            0 <= k < words_from(s, from, word).len() ==> {
                &&& (#[trigger] words_from(s, from, word)[k]).len() > 0
                &&& is_word(words_from(s, from, word)[k])
            },
    decreases s.len() - from,
{
    if from < s.len() {
        if is_space(s[from]) {
            lemma_words_are_words(s, from + 1, Seq::empty());
            let rest = words_from(s, from + 1, Seq::empty());
            let all = words_from(s, from, word);
            assert forall|k: int| 0 <= k < all.len() implies (#[trigger] all[k]).len() > 0
                && is_word(all[k]) by {
                if word.len() > 0 {
                    assert(all == seq![word] + rest);
                    if k > 0 {
                        assert(all[k] == rest[k - 1]);
                    }
                } else {
                    assert(all == Seq::<Seq<u8>>::empty() + rest);
                    assert(all[k] == rest[k]);
                }
            }
        } else {
            let longer = word.push(s[from]);
            assert forall|i: int| 0 <= i < longer.len() implies !is_space(#[trigger] longer[i]) by {
                if i < word.len() {
                    assert(longer[i] == word[i]);
                }
            }
            lemma_words_are_words(s, from + 1, longer);
            assert(words_from(s, from, word) == words_from(s, from + 1, longer));
        }
    } else {
        let all = words_from(s, from, word);
        assert forall|k: int| 0 <= k < all.len() implies (#[trigger] all[k]).len() > 0 && is_word(
            all[k],
        ) by {
            assert(all == seq![word]);
        }
    }
}

/// The content without the line breaks at its end.
pub fn trim_line_end(content: &[u8]) -> (kept: &[u8])
    ensures
        kept@ == trimmed(content@),
{
    let mut n: usize = content.len();
    assert(content@.take(n as int) =~= content@);
    while n > 0 && content[n - 1] == 10
        invariant
            n <= content@.len(),
            trimmed(content@) == trimmed(content@.take(n as int)),
        decreases n,
    {
        assert(content@.take(n as int).drop_last() =~= content@.take(n - 1));
        n -= 1;
    }
    let kept = slice_subrange(content, 0, n);
    assert(kept@ =~= content@.take(n as int));
    kept
}

/// Reads a decimal numeral that denotes a number between `lo` and `hi`.
/// The whole content must be the numeral.
fn parse_bounded(content: &[u8], lo: i64, hi: i64) -> (value: Option<i64>)
    requires
        -4294967296 <= lo <= hi <= 4294967296,
    ensures
        value == match bounded_value(content@, lo as int, hi as int) {
            Some(v) => Some(v as i64),
            None => None::<i64>,
        },
{
    let n: usize = content.len();
    if n == 0 {
        return None;
    }
    let signed: bool = content[0] == 45 || content[0] == 43;
    let negative: bool = content[0] == 45;
    let start: usize = if signed {
        1
    } else {
        0
    };
    if start == n {
        return None;
    }
    let ghost body = content@.skip(start as int);
    let mut acc: i64 = 0;
    let mut i: usize = start;
    assert(body.take(0) =~= Seq::<u8>::empty());
    assert(!signed ==> body =~= content@);
    while i < n
        invariant
            start <= i <= n,
            n == content@.len(),
            n > start,
            -4294967296 <= lo <= hi <= 4294967296,
            signed == (content@[0] == 45 || content@[0] == 43),
            start == if signed { 1int } else { 0int },
            !signed ==> body == content@,
            body == content@.skip(start as int),
            all_digits(body.take(i - start)),
            acc == digits_value(body.take(i - start)),
            0 <= acc <= 4294967296,
        decreases n - i,
    {
        let b: u8 = content[i];
        assert(b == body[i - start]);
        if b < 48 || b > 57 {
            assert(!is_digit(body[i - start]));
            return None;
        }
        let ghost prev = body.take(i - start);
        let ghost next = body.take(i - start + 1);
        assert(next.drop_last() =~= prev);
        assert(next.last() == b);
        assert(all_digits(next)) by {
            assert forall|j: int| 0 <= j < next.len() implies is_digit(#[trigger] next[j]) by {
                if j < prev.len() {
                    assert(next[j] == prev[j]);
                }
            }
        }
        acc = acc * 10 + (b - 48) as i64;
        assert(acc == digits_value(next));
        if acc > 4294967296 {
            proof {
                if all_digits(body) {
                    lemma_digits_value_grows(body, i - start + 1);
                }
            }
            return None;
        }
        i += 1;
    }
    assert(body.take(n - start) =~= body);
    let v: i64 = if negative {
        -acc
    } else {
        acc
    };
    if lo <= v && v <= hi {
        Some(v)
    } else {
        None
    }
}

/// Reads the content of an attribute as a signed integer: the content
/// without the line breaks at its end must be a decimal numeral in range.
pub fn parse_int(content: &[u8]) -> (r: Ev3Result<i32>)
    ensures
        match bounded_value(trimmed(content@), i32::MIN as int, i32::MAX as int) {
            Some(v) => r == Ok::<i32, Ev3Error>(v as i32),
            None => r == Err::<i32, Ev3Error>(Ev3Error::Parse),
        },
{
    match parse_bounded(trim_line_end(content), -2147483648, 2147483647) {
        Some(v) => Ok(v as i32),
        None => Err(Ev3Error::Parse),
    }
}

/// Reads the content of an attribute as a small count: the content without
/// the line breaks at its end must be a decimal numeral from 0 to 255 with
/// no minus sign.
pub fn parse_count(content: &[u8]) -> (r: Ev3Result<u8>)
    ensures
        match count_value(trimmed(content@)) {
            Some(v) => r == Ok::<u8, Ev3Error>(v),
            None => r == Err::<u8, Ev3Error>(Ev3Error::Parse),
        },
{
    let text = trim_line_end(content);
    if text.len() > 0 && text[0] == 45 {
        return Err(Ev3Error::Parse);
    }
    match parse_bounded(text, 0, 255) {
        Some(v) => Ok(v as u8),
        None => Err(Ev3Error::Parse),
    }
}

/// The count that a content denotes: a numeral from 0 to 255 that does not
/// begin with a minus sign.
pub open spec fn count_value(s: Seq<u8>) -> Option<u8> {
    if s.len() > 0 && s[0] == 45 {
        None
    } else {
        match bounded_value(s, 0, 255) {
            Some(v) => Some(v as u8),
            None => None,
        }
    }
}

/// Reads the content of an attribute as a truth value.
pub fn parse_bool(content: &[u8]) -> (r: Ev3Result<bool>)
    ensures
        match bool_value(trimmed(content@)) {
            Some(v) => r == Ok::<bool, Ev3Error>(v),
            None => r == Err::<bool, Ev3Error>(Ev3Error::Parse),
        },
{
    let text = trim_line_end(content);
    if text.len() == 1 && text[0] == 49 {
        assert(text@ =~= seq![49u8]);
        Ok(true)
    } else if text.len() == 1 && text[0] == 48 {
        assert(text@ =~= seq![48u8]);
        assert(seq![49u8][0] != text@[0]);
        Ok(false)
    } else {
        assert(text@ != seq![49u8]) by {
            if text@.len() == 1 {
                assert(seq![49u8][0] != text@[0]);
            }
        }
        assert(text@ != seq![48u8]) by {
            if text@.len() == 1 {
                assert(seq![48u8][0] != text@[0]);
            }
        }
        Err(Ev3Error::Parse)
    }
}

/// Appends the decimal digits of `n` to `out`.
fn push_digits(out: &mut Vec<u8>, n: u64)
    ensures
        final(out)@ == old(out)@ + digits_of(n as nat),
    decreases n,
{
    if n < 10 {
        out.push((48 + n) as u8);
        assert(final(out)@ =~= old(out)@ + digits_of(n as nat));
    } else {
        push_digits(out, n / 10);
        out.push((48 + n % 10) as u8);
        assert(final(out)@ =~= old(out)@ + digits_of(n as nat));
    }
}

/// The canonical content for an integer: its decimal numeral, with a minus
/// sign if it is negative.
pub fn format_int(value: i32) -> (content: Vec<u8>)
    ensures
        content@ == int_text(value as int),
{
    let mut out: Vec<u8> = Vec::new();
    if value < 0 {
        out.push(45);
        let magnitude: u64 = (-(value as i64)) as u64;
        push_digits(&mut out, magnitude);
        assert(out@ =~= int_text(value as int));
    } else {
        push_digits(&mut out, value as u64);
        assert(out@ =~= int_text(value as int));
    }
    out
}

/// The canonical content for a truth value.
pub fn format_bool(value: bool) -> (content: Vec<u8>)
    ensures
        content@ == bool_text(value),
{
    let mut out: Vec<u8> = Vec::new();
    if value {
        out.push(49);
    } else {
        out.push(48);
    }
    assert(out@ =~= bool_text(value));
    out
}

/// Whether a byte is ASCII white space.
pub fn is_space_byte(b: u8) -> (r: bool)
    ensures
        r == is_space(b),
{
    b == 32 || (9 <= b && b <= 13)
}

/// Splits the content of an attribute into its words, in order.
pub fn split_words(content: &[u8]) -> (list: Vec<Vec<u8>>)
    ensures
        byte_texts(list@) == words(content@),
{
    let mut list: Vec<Vec<u8>> = Vec::new();
    let mut word: Vec<u8> = Vec::new();
    let mut i: usize = 0;
    assert(byte_texts(list@) =~= Seq::<Seq<u8>>::empty());
    assert(Seq::<Seq<u8>>::empty() + words(content@) =~= words(content@));
    while i < content.len()
        invariant
            i <= content@.len(),
            words(content@) == byte_texts(list@) + words_from(content@, i as int, word@),
        decreases content@.len() - i,
    {
        let b: u8 = content[i];
        let ghost done = byte_texts(list@);
        let ghost open = word@;
        let ghost rest = words_from(content@, i + 1, Seq::empty());
        if is_space_byte(b) {
            if word.len() > 0 {
                list.push(word);
                word = Vec::new();
                assert(byte_texts(list@) =~= done + seq![open]);
                assert(words_from(content@, i as int, open) == seq![open] + rest);
                assert(done + (seq![open] + rest) =~= (done + seq![open]) + rest);
            } else {
                assert(open =~= Seq::<u8>::empty());
                assert(words_from(content@, i as int, open) == Seq::<Seq<u8>>::empty() + rest);
                assert(Seq::<Seq<u8>>::empty() + rest =~= rest);
            }
        } else {
            word.push(b);
            assert(words_from(content@, i as int, open) == words_from(
                content@,
                i + 1,
                open.push(b),
            ));
        }
        i += 1;
    }
    let ghost done = byte_texts(list@);
    let ghost open = word@;
    if word.len() > 0 {
        list.push(word);
        assert(byte_texts(list@) =~= done + seq![open]);
    } else {
        assert(done + Seq::<Seq<u8>>::empty() =~= done);
    }
    list
}

/// Whether `wanted` is one of the strings of `list`.
pub fn list_holds(list: &Vec<String>, wanted: &String) -> (held: bool)
    ensures
        held == texts(list@).contains(wanted@),
{
    let mut i: usize = 0;
    while i < list.len()
        invariant
            i <= list@.len(),
            forall|j: int| 0 <= j < i ==> texts(list@)[j] != wanted@,
        decreases list@.len() - i,
    {
        if list[i] == *wanted {
            assert(texts(list@)[i as int] == wanted@);
            return true;
        }
        i += 1;
    }
    false
}

} // verus!
