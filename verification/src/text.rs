//! Character-level helpers: splitting rows into button ids, detecting text
//! that a C string cannot carry, and naming code points as keysyms.

use vstd::prelude::*;

verus! {

/// The characters that separate button ids in a row: space, tab, line feed,
/// form feed and carriage return.
pub open spec fn is_separator(c: char) -> bool {
    c == ' ' || c == '\t' || c == '\n' || c == '\x0C' || c == '\r'
}

/// Length of the longest prefix of `s` that holds no separator.
pub open spec fn word_len(s: Seq<char>) -> nat
    decreases s.len(),
{
    if s.len() == 0 || is_separator(s[0]) {
        0
    } else {
        1 + word_len(s.drop_first())
    }
}

/// The maximal separator-free runs of `s`, in order: leading separators
/// are skipped, the first word is taken, and the rest is split likewise.
/// (The first word of a text that starts with no separator is never empty;
/// the test of its length only shows that the rest is shorter.)
pub open spec fn words(s: Seq<char>) -> Seq<Seq<char>>
    decreases s.len(),
{
    if s.len() == 0 {
        Seq::empty()
    } else if is_separator(s[0]) {
        words(s.drop_first())
    } else {
        let n = word_len(s) as int;
        if 0 < n <= s.len() {
            seq![s.take(n)] + words(s.skip(n))
        } else {
            Seq::empty()
        }
    }
}

/// A separator-free stretch that ends at a separator or at the end of the
/// text is exactly the first word.
pub proof fn lemma_word_len(s: Seq<char>, k: int)
    requires
        0 <= k <= s.len(),
        forall|i: int| 0 <= i < k ==> !is_separator(#[trigger] s[i]),
        k == s.len() || is_separator(s[k]),
    ensures
        word_len(s) == k,
    decreases k,
{
    if k > 0 {
        let t = s.drop_first();
        assert forall|i: int| 0 <= i < k - 1 implies !is_separator(#[trigger] t[i]) by {
            assert(t[i] == s[i + 1]);
        }
        lemma_word_len(t, k - 1);
    }
}

/// Every word is non-empty and free of separators.
pub proof fn lemma_words_are_tokens(s: Seq<char>)
    ensures
        forall|w: int| 0 <= w < words(s).len() ==> (#[trigger] words(s)[w]).len() > 0,
        forall|w: int, i: int|
            0 <= w < words(s).len() && 0 <= i < words(s)[w].len() ==> !is_separator(
                #[trigger] words(s)[w][i],
            ),
    decreases s.len(),
{
    if s.len() == 0 {
        assert(words(s).len() == 0);
    } else if is_separator(s[0]) {
        lemma_words_are_tokens(s.drop_first());
        assert(words(s) == words(s.drop_first()));
    } else {
        let n = word_len(s) as int;
        lemma_word_len_bounds(s);
        lemma_words_are_tokens(s.skip(n));
        let rest = words(s.skip(n));
        assert(words(s) == seq![s.take(n)] + rest);
        assert(words(s)[0] == s.take(n));
        assert forall|w: int| 0 <= w < words(s).len() implies (#[trigger] words(s)[w]).len()
            > 0 by {
            if w > 0 {
                assert(words(s)[w] == rest[w - 1]);
            }
        }
        assert forall|w: int, i: int|
            0 <= w < words(s).len() && 0 <= i < words(s)[w].len() implies !is_separator(
            #[trigger] words(s)[w][i],
        ) by {
            if w > 0 {
                assert(words(s)[w] == rest[w - 1]);
            }
        }
    }
}

/// The first word lies inside the text, is free of separators, and is
/// non-empty when the text starts with a character that is no separator.
pub proof fn lemma_word_len_bounds(s: Seq<char>)
    ensures
        word_len(s) <= s.len(),
        forall|i: int| 0 <= i < word_len(s) ==> !is_separator(#[trigger] s[i]),
        s.len() > 0 && !is_separator(s[0]) ==> word_len(s) > 0,
    decreases s.len(),
{
    if s.len() == 0 || is_separator(s[0]) {
    } else {
        let t = s.drop_first();
        lemma_word_len_bounds(t);
        assert forall|i: int| 0 <= i < word_len(s) implies !is_separator(#[trigger] s[i]) by {
            if i > 0 {
                assert(s[i] == t[i - 1]);
            }
        }
    }
}

fn is_separator_char(c: char) -> (b: bool)
    ensures
        b == is_separator(c),
{
    c == ' ' || c == '\t' || c == '\n' || c == '\x0C' || c == '\r'
}

/// Splits a row into its button ids, as `str::split_ascii_whitespace` does.
pub fn split_ascii_whitespace(row: &str) -> (ids: Vec<String>)
    ensures
        ids.deep_view() == words(row@),
{
    let n: usize = row.unicode_len();
    let mut ids: Vec<String> = Vec::new();
    let mut i: usize = 0;
    proof {
        assert(row@.skip(0) =~= row@);
        assert(ids.deep_view() =~= Seq::<Seq<char>>::empty());
    }
    while i < n
        invariant
            n == row@.len(),
            i <= n,
            words(row@) == ids.deep_view() + words(row@.skip(i as int)),
        decreases n - i,
    {
        let ghost rest = row@.skip(i as int);
        if is_separator_char(row.get_char(i)) {
            proof {
                assert(rest.drop_first() =~= row@.skip(i + 1));
            }
            i += 1;
        } else {
            let start: usize = i;
            i += 1;
            while i < n && !is_separator_char(row.get_char(i))
                invariant
                    n == row@.len(),
                    start < i <= n,
                    forall|j: int| start <= j < i ==> !is_separator(#[trigger] row@[j]),
                decreases n - i,
            {
                i += 1;
            }
            let word = row.substring_char(start, i).to_owned();
            proof {
                let k = i - start;
                assert forall|j: int| 0 <= j < k implies !is_separator(#[trigger] rest[j]) by {
                    assert(rest[j] == row@[start + j]);
                }
                lemma_word_len(rest, k);
                assert(rest.take(k) =~= row@.subrange(start as int, i as int));
                assert(rest.skip(k) =~= row@.skip(i as int));
                assert(words(rest) == seq![rest.take(k)] + words(rest.skip(k)));
                assert(ids.deep_view().push(word@) + words(row@.skip(i as int)) =~= ids.deep_view()
                    + words(rest));
            }
            let ghost before = ids.deep_view();
            ids.push(word);
            proof {
                assert(ids.deep_view() =~= before.push(word@));
            }
        }
    }
    proof {
        assert(row@.skip(n as int) =~= Seq::<char>::empty());
        assert(words(row@.skip(n as int)) =~= Seq::<Seq<char>>::empty());
        assert(ids.deep_view() + Seq::<Seq<char>>::empty() =~= ids.deep_view());
    }
    ids
}

/// Whether a C string can carry this text: it holds no NUL character.
pub open spec fn is_c_text(s: Seq<char>) -> bool {
    !s.contains('\0')
}

/// Tests whether the text holds no NUL character.
pub fn is_c_string(s: &str) -> (b: bool)
    ensures
        b == is_c_text(s@),
{
    let n: usize = s.unicode_len();
    let mut i: usize = 0;
    while i < n
        invariant
            n == s@.len(),
            i <= n,
            forall|j: int| 0 <= j < i ==> s@[j] != '\0',
        decreases n - i,
    {
        if s.get_char(i) == '\0' {
            return false;
        }
        i += 1;
    }
    true
}

/// The upper-case hexadecimal digit for a value below sixteen.
pub open spec fn hex_digit(d: int) -> char {
    if d == 0 {
        '0'
    } else if d == 1 {
        '1'
    } else if d == 2 {
        '2'
    } else if d == 3 {
        '3'
    } else if d == 4 {
        '4'
    } else if d == 5 {
        '5'
    } else if d == 6 {
        '6'
    } else if d == 7 {
        '7'
    } else if d == 8 {
        '8'
    } else if d == 9 {
        '9'
    } else if d == 10 {
        'A'
    } else if d == 11 {
        'B'
    } else if d == 12 {
        'C'
    } else if d == 13 {
        'D'
    } else if d == 14 {
        'E'
    } else {
        'F'
    }
}

/// The keysym name of a code point: `U` and the code point in upper-case
/// hexadecimal, padded with zeros to four digits.
pub open spec fn unicode_keysym(c: char) -> Seq<char> {
    let n = c as u32 as int;
    let low = seq![
        hex_digit(n / 0x1000 % 16),
        hex_digit(n / 0x100 % 16),
        hex_digit(n / 0x10 % 16),
        hex_digit(n % 16),
    ];
    if n < 0x10000 {
        seq!['U'] + low
    } else if n < 0x100000 {
        seq!['U', hex_digit(n / 0x10000)] + low
    } else {
        seq!['U', hex_digit(n / 0x100000), hex_digit(n / 0x10000 % 16)] + low
    }
}

fn hex_digit_str(d: u32) -> (digit: &'static str)
    requires
        d < 16,
    ensures
        digit@ == seq![hex_digit(d as int)],
{
    proof {
        reveal_strlit("0");
        reveal_strlit("1");
        reveal_strlit("2");
        reveal_strlit("3");
        reveal_strlit("4");
        reveal_strlit("5");
        reveal_strlit("6");
        reveal_strlit("7");
        reveal_strlit("8");
        reveal_strlit("9");
        reveal_strlit("A");
        reveal_strlit("B");
        reveal_strlit("C");
        reveal_strlit("D");
        reveal_strlit("E");
        reveal_strlit("F");
    }
    let digit = if d == 0 {
        "0"
    } else if d == 1 {
        "1"
    } else if d == 2 {
        "2"
    } else if d == 3 {
        "3"
    } else if d == 4 {
        "4"
    } else if d == 5 {
        "5"
    } else if d == 6 {
        "6"
    } else if d == 7 {
        "7"
    } else if d == 8 {
        "8"
    } else if d == 9 {
        "9"
    } else if d == 10 {
        "A"
    } else if d == 11 {
        "B"
    } else if d == 12 {
        "C"
    } else if d == 13 {
        "D"
    } else if d == 14 {
        "E"
    } else {
        "F"
    };
    assert(digit@ =~= seq![hex_digit(d as int)]);
    digit
}

/// Names a code point as a keysym that every keyboard description accepts.
pub fn unicode_keysym_name(c: char) -> (name: String)
    ensures
        name@ == unicode_keysym(c),
{
    let n: u32 = c as u32;
    let mut name: String = "U".to_owned();
    proof {
        reveal_strlit("U");
        assert(name@ =~= seq!['U']);
    }
    if n >= 0x100000 {
        name.append(hex_digit_str(n / 0x100000));
    }
    if n >= 0x10000 {
        name.append(hex_digit_str(n / 0x10000 % 16));
    }
    name.append(hex_digit_str(n / 0x1000 % 16));
    name.append(hex_digit_str(n / 0x100 % 16));
    name.append(hex_digit_str(n / 0x10 % 16));
    name.append(hex_digit_str(n % 16));
    proof {
        assert(n < 0x100000 ==> n / 0x10000 % 16 == n / 0x10000);
        assert(name@ =~= unicode_keysym(c));
    }
    name
}

/// The bytes that encode a text.
pub open spec fn text_bytes(s: Seq<char>) -> Seq<u8> {
    vstd::utf8::encode_utf8(s)
}

/// The place of the first zero byte, or the number of bytes if none is
/// zero.
pub open spec fn first_nul(bytes: Seq<u8>) -> nat
    decreases bytes.len(),
{
    if bytes.len() == 0 || bytes[0] == 0 {
        0
    } else {
        1 + first_nul(bytes.drop_first())
    }
}

/// A stretch without a zero byte that ends at a zero byte or at the end
/// leads up to the first zero byte.
pub proof fn lemma_first_nul(bytes: Seq<u8>, k: int)
    requires
        0 <= k <= bytes.len(),
        forall|i: int| 0 <= i < k ==> #[trigger] bytes[i] != 0,
        k == bytes.len() || bytes[k] == 0,
    ensures
        first_nul(bytes) == k,
    decreases k,
{
    if k > 0 {
        let rest = bytes.drop_first();
        assert forall|i: int| 0 <= i < k - 1 implies #[trigger] rest[i] != 0 by {
            assert(rest[i] == bytes[i + 1]);
        }
        lemma_first_nul(rest, k - 1);
    }
}

/// A number in decimal digits.
pub open spec fn decimal(n: nat) -> Seq<char>
    decreases n,
{
    if n < 10 {
        seq![hex_digit(n as int)]
    } else {
        decimal(n / 10).push(hex_digit((n % 10) as int))
    }
}

/// Numbers in decimal digits, separated by a comma and a space.
pub open spec fn decimal_list(bytes: Seq<u8>) -> Seq<char>
    decreases bytes.len(),
{
    if bytes.len() == 0 {
        Seq::empty()
    } else if bytes.len() == 1 {
        decimal(bytes[0] as nat)
    } else {
        decimal_list(bytes.drop_last()) + ", "@ + decimal(bytes.last() as nat)
    }
}

/// Why a text is no C string, in the words of the error that
/// `std::ffi::CString::new` returns for it.
pub open spec fn nul_error_display(text: Seq<char>) -> Seq<char> {
    "nul byte found in provided data at position: "@ + decimal(first_nul(text_bytes(text)))
}

/// The error that `std::ffi::CString::new` returns for a text that is no C
/// string, as that error shows itself to a programmer.
pub open spec fn nul_error_debug(text: Seq<char>) -> Seq<char> {
    "NulError("@ + decimal(first_nul(text_bytes(text))) + ", ["@ + decimal_list(text_bytes(text))
        + "])"@
}

/// Writes a number in decimal digits.
pub fn decimal_string(n: usize) -> (digits: String)
    ensures
        digits@ == decimal(n as nat),
    decreases n,
{
    if n < 10 {
        hex_digit_str(n as u32).to_owned()
    } else {
        let mut digits = decimal_string(n / 10);
        let ghost before = digits@;
        digits.append(hex_digit_str((n % 10) as u32));
        proof {
            assert(digits@ =~= before.push(hex_digit((n % 10) as int)));
        }
        digits
    }
}

fn first_nul_position(bytes: &[u8]) -> (place: usize)
    ensures
        place == first_nul(bytes@),
{
    let n = bytes.len();
    let mut i: usize = 0;
    while i < n && bytes[i] != 0
        invariant
            n == bytes@.len(),
            i <= n,
            forall|j: int| 0 <= j < i ==> #[trigger] bytes@[j] != 0,
        decreases n - i,
    {
        i += 1;
    }
    proof {
        lemma_first_nul(bytes@, i as int);
    }
    i
}

fn decimal_list_string(bytes: &[u8]) -> (list: String)
    ensures
        list@ == decimal_list(bytes@),
{
    let n = bytes.len();
    let mut list = String::new();
    let mut i: usize = 0;
    proof {
        assert(bytes@.take(0) =~= Seq::<u8>::empty());
    }
    while i < n
        invariant
            n == bytes@.len(),
            i <= n,
            list@ == decimal_list(bytes@.take(i as int)),
        decreases n - i,
    {
        let ghost before = list@;
        if i > 0 {
            list.append(", ");
        }
        list.append(decimal_string(bytes[i] as usize).as_str());
        proof {
            let next = bytes@.take(i + 1);
            assert(next.drop_last() =~= bytes@.take(i as int));
            assert(next.last() == bytes@[i as int]);
            if i == 0 {
                assert(before =~= Seq::<char>::empty());
                assert(list@ =~= decimal(bytes@[0] as nat));
            }
        }
        i += 1;
    }
    proof {
        assert(bytes@.take(n as int) =~= bytes@);
    }
    list
}

/// Says why a text is no C string, as [`nul_error_display`] has it.
pub fn nul_error_display_string(text: &str) -> (shown: String)
    ensures
        shown@ == nul_error_display(text@),
{
    let mut shown: String = "nul byte found in provided data at position: ".to_owned();
    shown.append(decimal_string(first_nul_position(text.as_bytes())).as_str());
    shown
}

/// Says why a text is no C string, as [`nul_error_debug`] has it.
pub fn nul_error_debug_string(text: &str) -> (shown: String)
    ensures
        shown@ == nul_error_debug(text@),
{
    let bytes = text.as_bytes();
    let mut shown: String = "NulError(".to_owned();
    shown.append(decimal_string(first_nul_position(bytes)).as_str());
    shown.append(", [");
    shown.append(decimal_list_string(bytes).as_str());
    shown.append("])");
    shown
}

/// The character at a position, as a string of its own.
pub fn char_at(s: &str, i: usize) -> (one: String)
    requires
        i < s@.len() <= usize::MAX,
    ensures
        one@ == seq![s@[i as int]],
{
    let one = s.substring_char(i, i + 1).to_owned();
    proof {
        assert(one@ =~= seq![s@[i as int]]);
    }
    one
}

} // verus!
