//! Text helpers with exact specifications: decimal rendering of integers and
//! trimming of a trailing character.

use vstd::prelude::*;

verus! {

/// The character that writes the decimal digit `d` (for `d` in `0..=9`).
pub open spec fn digit_char(d: nat) -> char {
    if d == 0 {
        '0'
    } else if d == 1 {
        '1'
    } else if d == 2 {
        '2'
    } else if d == 3 {
        '3'
    } else if d == 4 {
        '4'
    } else if d == 5 {
        '5'
    } else if d == 6 {
        '6'
    } else if d == 7 {
        '7'
    } else if d == 8 {
        '8'
    } else {
        '9'
    }
}

/// The decimal representation of `n`: no sign, no leading zeros, `"0"` for zero.
pub open spec fn decimal(n: nat) -> Seq<char>
    decreases n,
{
    if n < 10 {
        seq![digit_char(n)]
    } else {
        decimal(n / 10).push(digit_char(n % 10))
    }
}

/// The text an optional string holds.
pub open spec fn opt_text(o: Option<String>) -> Option<Seq<char>> {
    match o {
        Some(s) => Some(s@),
        None => None,
    }
}

/// `s` without every trailing occurrence of `c`.
pub open spec fn trim_end_char(s: Seq<char>, c: char) -> Seq<char>
    decreases s.len(),
{
    if s.len() > 0 && s.last() == c {
        trim_end_char(s.drop_last(), c)
    } else {
        s
    }
}

fn digit_str(d: usize) -> (s: &'static str)
    requires
        d < 10,
    ensures
        s@ == seq![digit_char(d as nat)],
{
    if d == 0 {
        proof {
            reveal_strlit("0");
        }
        "0"
    } else if d == 1 {
        proof {
            reveal_strlit("1");
        }
        "1"
    } else if d == 2 {
        proof {
            reveal_strlit("2");
        }
        "2"
    } else if d == 3 {
        proof {
            reveal_strlit("3");
        }
        "3"
    } else if d == 4 {
        proof {
            reveal_strlit("4");
        }
        "4"
    } else if d == 5 {
        proof {
            reveal_strlit("5");
        }
        "5"
    } else if d == 6 {
        proof {
            reveal_strlit("6");
        }
        "6"
    } else if d == 7 {
        proof {
            reveal_strlit("7");
        }
        "7"
    } else if d == 8 {
        proof {
            reveal_strlit("8");
        }
        "8"
    } else {
        proof {
            reveal_strlit("9");
        }
        "9"
    }
}

/// Renders `n` in decimal, as `format!("{}", n)` does.
pub fn decimal_string(n: usize) -> (s: String)
    ensures
        s@ == decimal(n as nat),
    decreases n,
{
    if n < 10 {
        digit_str(n).to_owned()
    } else {
        let mut s = decimal_string(n / 10);
        s.append(digit_str(n % 10));
        s
    }
}

/// `s` with every trailing `c` removed, as `str::trim_end_matches(c)` does.
pub fn trim_end_matches_char(s: &str, c: char) -> (r: String)
    ensures
        r@ == trim_end_char(s@, c),
{
    let mut n = s.unicode_len();
    assert(s@.subrange(0, n as int) =~= s@);
    while n > 0 && s.get_char(n - 1) == c
        invariant
            n <= s@.len(),
            trim_end_char(s@, c) == trim_end_char(s@.subrange(0, n as int), c),
        decreases n,
    {
        assert(s@.subrange(0, n as int).drop_last() =~= s@.subrange(0, n - 1));
        n -= 1;
    }
    assert(n == 0 ==> s@.subrange(0, n as int) =~= Seq::<char>::empty());
    s.substring_char(0, n).to_owned()
}

} // verus!

verus! {

/// Whether `c` is one of the decimal digits `'0'..='9'`.
pub open spec fn is_digit(c: char) -> bool {
    '0' <= c && c <= '9'
}

proof fn lemma_digit_char(d: nat)
    requires
        d < 10,
    ensures
        is_digit(digit_char(d)),
        forall|e: nat| e < 10 && #[trigger] digit_char(e) == digit_char(d) ==> e == d,
{
}

/// A decimal representation is a non-empty string of digits.
pub proof fn law_decimal_is_digits(n: nat)
    ensures
        decimal(n).len() >= 1,
        forall|i: int| 0 <= i < decimal(n).len() ==> is_digit(#[trigger] decimal(n)[i]),
    decreases n,
{
    lemma_digit_char(n % 10);
    if n >= 10 {
        law_decimal_is_digits(n / 10);
        let p = decimal(n / 10);
        assert forall|i: int| 0 <= i < decimal(n).len() implies is_digit(
            #[trigger] decimal(n)[i],
        ) by {
            if i < p.len() {
                assert(decimal(n)[i] == p[i]);
            }
        }
    }
}

/// Different numbers have different decimal representations.
pub proof fn law_decimal_injective(a: nat, b: nat)
    requires
        decimal(a) == decimal(b),
    ensures
        a == b,
    decreases a,
{
    lemma_digit_char(a % 10);
    lemma_digit_char(b % 10);
    if a >= 10 {
        law_decimal_is_digits(a / 10);
    }
    if b >= 10 {
        law_decimal_is_digits(b / 10);
    }
    if a >= 10 && b >= 10 {
        assert(decimal(a).last() == digit_char(a % 10));
        assert(decimal(b).last() == digit_char(b % 10));
        assert(decimal(a).drop_last() =~= decimal(a / 10));
        assert(decimal(b).drop_last() =~= decimal(b / 10));
        law_decimal_injective(a / 10, b / 10);
        assert(digit_char(a % 10) == digit_char(b % 10));
        assert(a % 10 == b % 10);
        assert(a == 10 * (a / 10) + a % 10);
        assert(b == 10 * (b / 10) + b % 10);
        assert(a / 10 == b / 10);
        assert(a == b);
    } else if a < 10 && b < 10 {
        assert(decimal(a) == seq![digit_char(a)]);
        assert(decimal(b) == seq![digit_char(b)]);
        assert(seq![digit_char(a)][0] == digit_char(a));
        assert(seq![digit_char(b)][0] == digit_char(b));
        assert(digit_char(a) == digit_char(b));
        assert(a == b);
    } else if a < 10 {
        assert(decimal(a).len() == 1);
        assert(decimal(b).len() == decimal(b / 10).len() + 1);
    } else {
        assert(decimal(b).len() == 1);
        assert(decimal(a).len() == decimal(a / 10).len() + 1);
    }
}

/// Trimming leaves no trailing `c`, removes only copies of `c`, and trimming again
/// changes nothing.
pub proof fn law_trim_end_char(s: Seq<char>, c: char)
    ensures
        trim_end_char(s, c).len() == 0 || trim_end_char(s, c).last() != c,
        trim_end_char(s, c).len() <= s.len(),
        trim_end_char(s, c) == s.subrange(0, trim_end_char(s, c).len() as int),
        forall|i: int| trim_end_char(s, c).len() <= i < s.len() ==> s[i] == c,
        trim_end_char(trim_end_char(s, c), c) == trim_end_char(s, c),
    decreases s.len(),
{
    if s.len() > 0 && s.last() == c {
        law_trim_end_char(s.drop_last(), c);
        let t = trim_end_char(s.drop_last(), c);
        assert(s.subrange(0, t.len() as int) =~= s.drop_last().subrange(0, t.len() as int));
        assert forall|i: int| t.len() <= i < s.len() implies s[i] == c by {
            if i < s.len() - 1 {
                assert(s[i] == s.drop_last()[i]);
            }
        }
    } else {
        assert(s.subrange(0, s.len() as int) =~= s);
    }
}

} // verus!

verus! {

/// The characters that pass through percent-encoding unchanged: ASCII letters and
/// digits and `-`, `.`, `_`, `~`.
pub open spec fn is_unreserved(c: char) -> bool {
    ||| 'A' <= c && c <= 'Z'
    ||| 'a' <= c && c <= 'z'
    ||| '0' <= c && c <= '9'
    ||| c == '-'
    ||| c == '.'
    ||| c == '_'
    ||| c == '~'
}

/// The upper-case hexadecimal digit for `d` (for `d` in `0..16`).
pub open spec fn hex_char(d: nat) -> char {
    if d < 10 {
        digit_char(d)
    } else if d == 10 {
        'A'
    } else if d == 11 {
        'B'
    } else if d == 12 {
        'C'
    } else if d == 13 {
        'D'
    } else if d == 14 {
        'E'
    } else {
        'F'
    }
}

/// Each byte of `b` written as `%XY`, with `XY` its two upper-case hex digits.
pub open spec fn percent_bytes(b: Seq<u8>) -> Seq<char>
    decreases b.len(),
{
    if b.len() == 0 {
        Seq::empty()
    } else {
        percent_bytes(b.drop_last()) + seq![
            '%',
            hex_char((b.last() / 16) as nat),
            hex_char((b.last() % 16) as nat),
        ]
    }
}

/// `s` percent-encoded for a URL: unreserved characters stay, every other character
/// becomes the `%XY` escapes of its UTF-8 bytes.
pub open spec fn percent_encode(s: Seq<char>) -> Seq<char>
    decreases s.len(),
{
    if s.len() == 0 {
        Seq::empty()
    } else {
        percent_encode(s.drop_last()) + if is_unreserved(s.last()) {
            seq![s.last()]
        } else {
            percent_bytes(vstd::utf8::encode_utf8(seq![s.last()]))
        }
    }
}

fn hex_str(d: u8) -> (s: &'static str)
    requires
        d < 16,
    ensures
        s@ == seq![hex_char(d as nat)],
{
    if d < 10 {
        digit_str(d as usize)
    } else if d == 10 {
        proof {
            reveal_strlit("A");
        }
        "A"
    } else if d == 11 {
        proof {
            reveal_strlit("B");
        }
        "B"
    } else if d == 12 {
        proof {
            reveal_strlit("C");
        }
        "C"
    } else if d == 13 {
        proof {
            reveal_strlit("D");
        }
        "D"
    } else if d == 14 {
        proof {
            reveal_strlit("E");
        }
        "E"
    } else {
        proof {
            reveal_strlit("F");
        }
        "F"
    }
}

/// Percent-encodes `s` for use in a URL query.
pub fn percent_encode_string(s: &str) -> (r: String)
    ensures
        r@ == percent_encode(s@),
{
    let n = s.unicode_len();
    let mut r = String::new();
    let mut i: usize = 0;
    while i < n
        invariant
            n == s@.len(),
            i <= n,
            r@ == percent_encode(s@.take(i as int)),
        decreases n - i,
    {
        let c = s.get_char(i);
        let piece = s.substring_char(i, i + 1);
        assert(piece@ =~= seq![c]);
        assert(s@.take(i + 1).drop_last() =~= s@.take(i as int));
        assert(s@.take(i + 1).last() == c);
        let unreserved = ('A' <= c && c <= 'Z') || ('a' <= c && c <= 'z') || ('0' <= c && c <= '9')
            || c == '-' || c == '.' || c == '_' || c == '~';
        if unreserved {
            r.append(piece);
        } else {
            let bytes = piece.as_bytes();
            let m = bytes.len();
            let ghost before = r@;
            let mut j: usize = 0;
            while j < m
                invariant
                    m == bytes@.len(),
                    bytes@ == vstd::utf8::encode_utf8(seq![c]),
                    j <= m,
                    r@ == before + percent_bytes(bytes@.take(j as int)),
                decreases m - j,
            {
                let b = bytes[j];
                assert(bytes@.take(j + 1).drop_last() =~= bytes@.take(j as int));
                assert(bytes@.take(j + 1).last() == b);
                proof {
                    reveal_strlit("%");
                }
                r.append("%");
                r.append(hex_str(b / 16));
                r.append(hex_str(b % 16));
                assert(r@ =~= before + percent_bytes(bytes@.take(j + 1)));
                j += 1;
            }
            assert(bytes@.take(m as int) =~= bytes@);
        }
        assert(r@ =~= percent_encode(s@.take(i + 1)));
        i += 1;
    }
    assert(s@.take(n as int) =~= s@);
    r
}

/// How one character of a search text is written in a quoted `ilike` value: the
/// pattern wildcards `%` and `_` and the escape `\` are escaped for the pattern
/// (`\%`, `\_`, `\\`), and then every `\` and `"` is escaped again for the quotes.
/// The quotes keep `,`, `.`, `:`, `(` and `)` from being read as filter syntax. A `*`
/// is left as it is: the registry reads it as a wildcard and offers no escape for it.
pub open spec fn escape_search_char(c: char) -> Seq<char> {
    if c == '%' {
        seq!['\\', '\\', '%']
    } else if c == '_' {
        seq!['\\', '\\', '_']
    } else if c == '\\' {
        seq!['\\', '\\', '\\', '\\']
    } else if c == '"' {
        seq!['\\', '"']
    } else {
        seq![c]
    }
}

/// A search text with each character written as `escape_search_char` says.
pub open spec fn escape_search(s: Seq<char>) -> Seq<char>
    decreases s.len(),
{
    if s.len() == 0 {
        Seq::empty()
    } else {
        escape_search(s.drop_last()) + escape_search_char(s.last())
    }
}

/// The quoted `ilike` value that matches any text containing `query` literally:
/// `"%` + the escaped query + `%"`.
pub open spec fn search_value(query: Seq<char>) -> Seq<char> {
    seq!['"', '%'] + escape_search(query) + seq!['%', '"']
}

fn escape_search_piece(c: char, piece: &str) -> (r: &str)
    requires
        piece@ == seq![c],
    ensures
        r@ == escape_search_char(c),
{
    if c == '%' {
        proof {
            reveal_strlit("\\\\%");
        }
        "\\\\%"
    } else if c == '_' {
        proof {
            reveal_strlit("\\\\_");
        }
        "\\\\_"
    } else if c == '\\' {
        proof {
            reveal_strlit("\\\\\\\\");
        }
        "\\\\\\\\"
    } else if c == '"' {
        proof {
            reveal_strlit("\\\"");
        }
        "\\\""
    } else {
        piece
    }
}

/// The quoted `ilike` value for a search for `query`, as `search_value` says.
pub fn search_value_string(query: &str) -> (r: String)
    ensures
        r@ == search_value(query@),
{
    let n = query.unicode_len();
    proof {
        reveal_strlit("\"%");
        reveal_strlit("%\"");
    }
    let mut r = "\"%".to_owned();
    let mut i: usize = 0;
    while i < n
        invariant
            n == query@.len(),
            i <= n,
            r@ == seq!['"', '%'] + escape_search(query@.take(i as int)),
        decreases n - i,
    {
        let c = query.get_char(i);
        let piece = query.substring_char(i, i + 1);
        assert(piece@ =~= seq![c]);
        assert(query@.take(i + 1).drop_last() =~= query@.take(i as int));
        assert(query@.take(i + 1).last() == c);
        r.append(escape_search_piece(c, piece));
        assert(r@ =~= seq!['"', '%'] + escape_search(query@.take(i + 1)));
        i += 1;
    }
    assert(query@.take(n as int) =~= query@);
    r.append("%\"");
    r
}

} // verus!
