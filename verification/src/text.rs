//! Building blocks of plain-text output: padding, repetition, joining and
//! decimal numbers.
use vstd::prelude::*;

verus! {

/// `s` padded on the right with spaces to `width` characters, as `{:<width$}`
/// formats it; a longer `s` is kept whole.
pub open spec fn padded(s: Seq<char>, width: int) -> Seq<char> {
    if s.len() < width {
        s + Seq::new((width - s.len()) as nat, |i: int| ' ')
    } else {
        s
    }
}

/// `s` written `n` times in a row.
pub open spec fn repeated(s: Seq<char>, n: nat) -> Seq<char>
    decreases n,
{
    if n == 0 {
        Seq::empty()
    } else {
        repeated(s, (n - 1) as nat) + s
    }
}

/// The items, with `sep` between each two of them.
pub open spec fn joined(items: Seq<Seq<char>>, sep: Seq<char>) -> Seq<char>
    decreases items.len(),
{
    if items.len() == 0 {
        Seq::empty()
    } else if items.len() == 1 {
        items[0]
    } else {
        joined(items.drop_last(), sep) + sep + items.last()
    }
}

/// The decimal digit for `d < 10`.
pub open spec fn digit(d: nat) -> char {
    if d == 0 {
        '0'
    } else if d == 1 {
        '1'
    } else if d == 2 {
        '2'
    } else if d == 3 {
        '3'
    } else if d == 4 {
        '4'
    } else if d == 5 {
        '5'
    } else if d == 6 {
        '6'
    } else if d == 7 {
        '7'
    } else if d == 8 {
        '8'
    } else {
        '9'
    }
}

/// The decimal representation of `n`, without leading zeros.
pub open spec fn decimal(n: nat) -> Seq<char>
    decreases n,
{
    if n < 10 {
        seq![digit(n)]
    } else {
        decimal(n / 10) + seq![digit(n % 10)]
    }
}

/// The number of bytes of the UTF-8 encoding of `s`.
pub open spec fn byte_len(s: Seq<char>) -> int {
    vstd::utf8::encode_utf8(s).len() as int
}

/// A string never has more characters than its UTF-8 encoding has bytes.
pub proof fn lemma_chars_at_most_bytes(s: Seq<char>)
    ensures
        s.len() <= byte_len(s),
    decreases s.len(),
{
    if s.len() > 0 {
        lemma_chars_at_most_bytes(s.drop_first());
        assert(vstd::utf8::encode_scalar(s[0] as u32).len() >= 1);
    }
}

/// `s` padded to `width` characters has exactly `width` characters when it is
/// no longer than that.
pub proof fn lemma_padded_len(s: Seq<char>, width: int)
    requires
        s.len() <= width,
    ensures
        padded(s, width).len() == width,
{
}

fn digit_str(d: usize) -> (s: &'static str)
    requires
        d < 10,
    ensures
        s@ == seq![digit(d as nat)],
{
    proof {
        reveal_strlit("0");
        reveal_strlit("1");
        reveal_strlit("2");
        reveal_strlit("3");
        reveal_strlit("4");
        reveal_strlit("5");
        reveal_strlit("6");
        reveal_strlit("7");
        reveal_strlit("8");
        reveal_strlit("9");
    }
    if d == 0 {
        "0"
    } else if d == 1 {
        "1"
    } else if d == 2 {
        "2"
    } else if d == 3 {
        "3"
    } else if d == 4 {
        "4"
    } else if d == 5 {
        "5"
    } else if d == 6 {
        "6"
    } else if d == 7 {
        "7"
    } else if d == 8 {
        "8"
    } else {
        "9"
    }
}

/// Writes `n` in decimal, as `{}` formats an unsigned integer.
pub fn decimal_string(n: usize) -> (s: String)
    ensures
        s@ == decimal(n as nat),
{
    let mut m = n;
    let mut acc = String::new();
    while m >= 10
        invariant
            decimal(n as nat) == decimal(m as nat) + acc@,
        decreases m,
    {
        let d = digit_str(m % 10);
        let ghost old_acc = acc@;
        acc = d.to_owned().concat(acc.as_str());
        assert(decimal(m as nat) == decimal((m / 10) as nat) + seq![digit((m % 10) as nat)]);
        assert(decimal(n as nat) =~= decimal((m / 10) as nat) + acc@);
        m = m / 10;
    }
    let d = digit_str(m);
    let r = d.to_owned().concat(acc.as_str());
    assert(r@ =~= decimal(n as nat));
    r
}

/// Pads `s` on the right with spaces to `width` characters, as `{:<width$}` does.
pub fn pad_right(s: &str, width: usize) -> (r: String)
    ensures
        r@ == padded(s@, width as int),
{
    let len = s.unicode_len();
    let mut r = s.to_owned();
    if len < width {
        let mut i: usize = len;
        while i < width
            invariant
                len <= i <= width,
                len == s@.len(),
                r@ == s@ + Seq::new((i - len) as nat, |k: int| ' '),
            decreases width - i,
        {
            proof {
                reveal_strlit(" ");
            }
            r.append(" ");
            assert(r@ =~= s@ + Seq::new((i + 1 - len) as nat, |k: int| ' '));
            i = i + 1;
        }
    }
    r
}

/// Writes `s` `n` times in a row, as `str::repeat` does.
pub fn repeat_str(s: &str, n: usize) -> (r: String)
    ensures
        r@ == repeated(s@, n as nat),
{
    let mut r = String::new();
    let mut i: usize = 0;
    while i < n
        invariant
            i <= n,
            r@ == repeated(s@, i as nat),
        decreases n - i,
    {
        r.append(s);
        i = i + 1;
    }
    r
}

/// Joins the items with `sep` between each two of them, as `join` does on a
/// slice of strings.
pub fn join_strings(items: &Vec<String>, sep: &str) -> (r: String)
    ensures
        r@ == joined(items.deep_view(), sep@),
{
    let mut r = String::new();
    let n = items.len();
    let mut i: usize = 0;
    while i < n
        invariant
            n == items@.len(),
            i <= n,
            r@ == joined(items.deep_view().take(i as int), sep@),
        decreases n - i,
    {
        let ghost items_v = items.deep_view();
        if i > 0 {
            r.append(sep);
        }
        r.append(items[i].as_str());
        assert(items_v.take(i + 1).drop_last() =~= items_v.take(i as int));
        assert(items_v.take(i + 1).last() == items[i as int]@);
        if i == 0 {
            assert(r@ =~= joined(items_v.take(1), sep@));
        }
        i = i + 1;
    }
    assert(items.deep_view().take(n as int) =~= items.deep_view());
    r
}

} // verus!
