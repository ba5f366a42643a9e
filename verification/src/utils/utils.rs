//! Formatting of money amounts, parsing of dates, and truncation of text.
use vstd::prelude::*;
use crate::models::date::{is_valid_date, Date};
use crate::parse::{parse_i32_chars, parse_i32_spec, parse_u32_chars, parse_u32_spec};
use crate::text::{chars_of, push_char, str_eq, to_uppercase, uppercase};

verus! {

/// The character of a decimal digit.
pub open spec fn digit_char(d: nat) -> char {
    if d == 0 {
        '0'
    } else if d == 1 {
        '1'
    } else if d == 2 {
        '2'
    } else if d == 3 {
        '3'
    } else if d == 4 {
        '4'
    } else if d == 5 {
        '5'
    } else if d == 6 {
        '6'
    } else if d == 7 {
        '7'
    } else if d == 8 {
        '8'
    } else {
        '9'
    }
}

fn digit_char_exec(d: u128) -> (c: char)
    requires
        d < 10,
    ensures
        c == digit_char(d as nat),
{
    if d == 0 {
        '0'
    } else if d == 1 {
        '1'
    } else if d == 2 {
        '2'
    } else if d == 3 {
        '3'
    } else if d == 4 {
        '4'
    } else if d == 5 {
        '5'
    } else if d == 6 {
        '6'
    } else if d == 7 {
        '7'
    } else if d == 8 {
        '8'
    } else {
        '9'
    }
}

/// The decimal digits of `n`, most significant first, without leading zeros.
pub open spec fn decimal_digits(n: nat) -> Seq<char>
    decreases n,
{
    if n < 10 {
        seq![digit_char(n)]
    } else {
        decimal_digits(n / 10).push(digit_char(n % 10))
    }
}

/// Digits with a ',' before each group of three counted from the right.
pub open spec fn group_thousands(ds: Seq<char>) -> Seq<char>
    decreases ds.len(),
{
    if ds.len() <= 3 {
        ds
    } else {
        group_thousands(ds.take(ds.len() - 3)) + seq![','] + ds.skip(ds.len() - 3)
    }
}

/// The symbol shown before amounts in the currency with the given
/// upper-case code: "$" for USD, "A$" for AUD, "€" for EUR, "£" for GBP,
/// "C$" for CAD, and nothing for any other code.
pub open spec fn currency_symbol_spec(upper_code: Seq<char>) -> Seq<char> {
    if upper_code == seq!['U', 'S', 'D'] {
        seq!['$']
    } else if upper_code == seq!['A', 'U', 'D'] {
        seq!['A', '$']
    } else if upper_code == seq!['E', 'U', 'R'] {
        seq!['€']
    } else if upper_code == seq!['G', 'B', 'P'] {
        seq!['£']
    } else if upper_code == seq!['C', 'A', 'D'] {
        seq!['C', '$']
    } else {
        Seq::empty()
    }
}

/// An amount of cents written with sign, symbol, thousands separators and
/// two decimals, such as "-$1,234.56".
pub open spec fn amount_text(cents: int, symbol: Seq<char>) -> Seq<char> {
    let magnitude = if cents < 0 {
        -cents
    } else {
        cents
    };
    let sign = if cents < 0 {
        seq!['-']
    } else {
        Seq::empty()
    };
    let fraction = magnitude % 100;
    sign + symbol + group_thousands(decimal_digits((magnitude / 100) as nat)) + seq!['.']
        + seq![digit_char((fraction / 10) as nat), digit_char((fraction % 10) as nat)]
}

/// The symbol of the currency with the given upper-case code.
pub fn currency_symbol(upper_code: &str) -> (r: &'static str)
    ensures
        r@ == currency_symbol_spec(upper_code@),
{
    proof {
        reveal_strlit("USD");
        reveal_strlit("AUD");
        reveal_strlit("EUR");
        reveal_strlit("GBP");
        reveal_strlit("CAD");
        reveal_strlit("$");
        reveal_strlit("A$");
        reveal_strlit("€");
        reveal_strlit("£");
        reveal_strlit("C$");
        reveal_strlit("");
        assert("USD"@ =~= seq!['U', 'S', 'D']);
        assert("AUD"@ =~= seq!['A', 'U', 'D']);
        assert("EUR"@ =~= seq!['E', 'U', 'R']);
        assert("GBP"@ =~= seq!['G', 'B', 'P']);
        assert("CAD"@ =~= seq!['C', 'A', 'D']);
        assert("$"@ =~= seq!['$']);
        assert("A$"@ =~= seq!['A', '$']);
        assert("€"@ =~= seq!['€']);
        assert("£"@ =~= seq!['£']);
        assert("C$"@ =~= seq!['C', '$']);
        assert(""@ =~= Seq::<char>::empty());
    }
    if str_eq(upper_code, "USD") {
        "$"
    } else if str_eq(upper_code, "AUD") {
        "A$"
    } else if str_eq(upper_code, "EUR") {
        "€"
    } else if str_eq(upper_code, "GBP") {
        "£"
    } else if str_eq(upper_code, "CAD") {
        "C$"
    } else {
        ""
    }
}

pub(crate) fn push_decimal_digits(n: u128, out: &mut Vec<char>)
    ensures
        final(out)@ == old(out)@ + decimal_digits(n as nat),
    decreases n,
{
    if n >= 10 {
        push_decimal_digits(n / 10, out);
    }
    out.push(digit_char_exec(n % 10));
    proof {
        if n < 10 {
            assert(n % 10 == n);
        }
    }
}

fn push_grouped(ds: &Vec<char>, end: usize, out: &mut String)
    requires
        end <= ds@.len(),
    ensures
        final(out)@ == old(out)@ + group_thousands(ds@.take(end as int)),
    decreases end,
{
    let ghost s = ds@.take(end as int);
    let start: usize = if end > 3 {
        push_grouped(ds, end - 3, out);
        assert(s.take(s.len() - 3) == ds@.take(end - 3));
        push_char(out, ',');
        end - 3
    } else {
        0
    };
    let ghost before = out@;
    let mut i = start;
    while i < end
        invariant
            start <= i <= end <= ds@.len(),
            out@ == before + ds@.subrange(start as int, i as int),
        decreases end - i,
    {
        push_char(out, ds[i]);
        assert(ds@.subrange(start as int, i + 1) == ds@.subrange(start as int, i as int).push(
            ds@[i as int],
        ));
        i = i + 1;
    }
    proof {
        if end > 3 {
            assert(s.skip(s.len() - 3) =~= ds@.subrange(end - 3, end as int));
        } else {
            assert(ds@.subrange(0, end as int) =~= s);
        }
    }
}

/// Writes an amount of cents with the given symbol: a '-' for negative
/// amounts, the symbol, the whole units with ',' between groups of three
/// digits, '.', and two digits of cents.
pub fn format_amount(cents: i128, symbol: &str) -> (r: String)
    ensures
        r@ == amount_text(cents as int, symbol@),
{
    let magnitude: u128 = if cents < 0 {
        if cents == i128::MIN {
            0x8000_0000_0000_0000_0000_0000_0000_0000u128
        } else {
            (0 - cents) as u128
        }
    } else {
        cents as u128
    };
    let mut out = String::new();
    if cents < 0 {
        push_char(&mut out, '-');
    }
    let sym = chars_of(symbol);
    let mut i: usize = 0;
    let ghost start = out@;
    while i < sym.len()
        invariant
            i <= sym@.len(),
            sym@ == symbol@,
            out@ == start + sym@.take(i as int),
        decreases sym@.len() - i,
    {
        push_char(&mut out, sym[i]);
        assert(sym@.take(i + 1) == sym@.take(i as int).push(sym@[i as int]));
        i = i + 1;
    }
    assert(sym@.take(sym@.len() as int) == sym@);
    let mut ds: Vec<char> = Vec::new();
    push_decimal_digits(magnitude / 100, &mut ds);
    assert(ds@ == decimal_digits((magnitude / 100) as nat));
    push_grouped(&ds, ds.len(), &mut out);
    assert(ds@.take(ds@.len() as int) == ds@);
    push_char(&mut out, '.');
    let fraction = magnitude % 100;
    push_char(&mut out, digit_char_exec(fraction / 10));
    push_char(&mut out, digit_char_exec(fraction % 10));
    let ghost sign: Seq<char> = if cents < 0 {
        seq!['-']
    } else {
        Seq::<char>::empty()
    };
    assert(out@ =~= sign + symbol@ + group_thousands(decimal_digits((magnitude / 100) as nat))
        + seq!['.'] + seq![digit_char((fraction / 10) as nat), digit_char((fraction % 10) as nat)]);
    out
}

/// Formats an amount of cents in the given currency: sign, currency symbol
/// (chosen by the upper-case currency code), thousands separators and two
/// decimals, such as "$1,234.56" or "A$1,234.56".
pub fn format_currency(cents: i128, currency_code: &str) -> (r: String)
    ensures
        r@ == amount_text(cents as int, currency_symbol_spec(uppercase(currency_code@))),
{
    let upper = to_uppercase(currency_code);
    let symbol = currency_symbol(upper.as_str());
    format_amount(cents, symbol)
}

/// The parts of `s` between occurrences of `sep` (`str::split`); the empty
/// text has one, empty, part.
pub open spec fn split_on(s: Seq<char>, sep: char) -> Seq<Seq<char>>
    decreases s.len(),
{
    if s.len() == 0 {
        seq![Seq::empty()]
    } else {
        let parts = split_on(s.drop_last(), sep);
        if s.last() == sep {
            parts.push(Seq::empty())
        } else {
            parts.update(parts.len() - 1, parts.last().push(s.last()))
        }
    }
}

/// The year, month and day written as "dd/mm/yyyy": exactly three parts
/// separated by '/', day and month as `u32`, year as `i32`, forming a valid
/// date; `None` otherwise, and for the empty text.
pub open spec fn date_from_dd_mm_yyyy(s: Seq<char>) -> Option<(i32, u32, u32)> {
    let parts = split_on(s, '/');
    if s.len() == 0 || parts.len() != 3 {
        None
    } else {
        match (parse_u32_spec(parts[0]), parse_u32_spec(parts[1]), parse_i32_spec(parts[2])) {
            (Some(day), Some(month), Some(year)) => if is_valid_date(
                year as int,
                month as int,
                day as int,
            ) {
                Some((year, month, day))
            } else {
                None
            },
            _ => None,
        }
    }
}

/// The parts of `v` between occurrences of `sep`.
fn split_chars(v: &Vec<char>, sep: char) -> (r: Vec<Vec<char>>)
    ensures
        r@.map_values(|p: Vec<char>| p@) == split_on(v@, sep),
{
    let mut done: Vec<Vec<char>> = Vec::new();
    let mut cur: Vec<char> = Vec::new();
    let mut i: usize = 0;
    assert(done@.map_values(|p: Vec<char>| p@).push(cur@) =~= split_on(v@.take(0), sep));
    while i < v.len()
        invariant
            i <= v@.len(),
            done@.map_values(|p: Vec<char>| p@).push(cur@) == split_on(v@.take(i as int), sep),
        decreases v@.len() - i,
    {
        let ghost prefix = v@.take(i + 1);
        assert(prefix.drop_last() == v@.take(i as int));
        assert(prefix.last() == v@[i as int]);
        let ghost old_done = done@.map_values(|p: Vec<char>| p@);
        let ghost old_cur = cur@;
        if v[i] == sep {
            let finished = cur;
            cur = Vec::new();
            done.push(finished);
            assert(done@.map_values(|p: Vec<char>| p@) =~= old_done.push(old_cur));
        } else {
            cur.push(v[i]);
        }
        assert(done@.map_values(|p: Vec<char>| p@).push(cur@) =~= split_on(
            v@.take(i + 1),
            sep,
        ));
        i = i + 1;
    }
    assert(v@.take(v@.len() as int) == v@);
    done.push(cur);
    assert(done@.map_values(|p: Vec<char>| p@) =~= split_on(v@, sep));
    done
}

/// Parses a date written "dd/mm/yyyy"; `None` for the empty text, a text
/// without exactly three '/'-separated parts, parts that are not numbers,
/// or a date that does not exist.
pub fn parse_date_from_dd_mm_yyyy(date_str: &str) -> (r: Option<Date>)
    ensures
        match r {
            Some(d) => date_from_dd_mm_yyyy(date_str@) == Some(
                (d.spec_year(), d.spec_month(), d.spec_day()),
            ),
            None => date_from_dd_mm_yyyy(date_str@) is None,
        },
{
    let v = chars_of(date_str);
    if v.len() == 0 {
        return None;
    }
    let parts = split_chars(&v, '/');
    if parts.len() != 3 {
        return None;
    }
    assert(parts@[0]@ == split_on(date_str@, '/')[0]);
    assert(parts@[1]@ == split_on(date_str@, '/')[1]);
    assert(parts@[2]@ == split_on(date_str@, '/')[2]);
    let day = match parse_u32_chars(&parts[0]) {
        Some(d) => d,
        None => return None,
    };
    let month = match parse_u32_chars(&parts[1]) {
        Some(m) => m,
        None => return None,
    };
    let year = match parse_i32_chars(&parts[2]) {
        Some(y) => y,
        None => return None,
    };
    Date::from_ymd_opt(year, month, day)
}

/// `s` cut to at most `max_chars` characters (not bytes).
pub fn truncate_string(s: &str, max_chars: usize) -> (r: &str)
    ensures
        r@ == if s@.len() <= max_chars {
            s@
        } else {
            s@.take(max_chars as int)
        },
{
    if s.unicode_len() <= max_chars {
        s
    } else {
        s.substring_char(0, max_chars)
    }
}

} // verus!
