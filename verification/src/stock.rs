//! Quote symbols and the quote service's text format.

use vstd::prelude::*;
use vstd::utf8::encode_utf8;

use crate::text::{
    ascii_lower, ascii_lowercase, chars_of, digits_value, find_char, is_digit, find_char_in, is_ascii_alpha, parse_u32,
    push_char, split_chars, split_on, str_to_uppercase, string_from_chars,
    string_from_range, to_uppercase, trim, trim_chars, lemma_split_on_nonempty,
};

verus! {

/// The length in bytes of the UTF-8 form of `s`, as `str::len` reports it.
pub open spec fn byte_len(s: Seq<char>) -> usize {
    encode_utf8(s).len() as usize
}

/// Whether `s` is six ASCII digits, the code of a Chinese A-share.
pub open spec fn is_a_share_code(s: Seq<char>) -> bool {
    s.len() == 6 && forall|i: int| 0 <= i < s.len() ==> is_digit(#[trigger] s[i])
}

/// The code that the quote service knows a symbol by, for a symbol `s` that
/// has already been trimmed and upper-cased: six ASCII digits are a Shanghai
/// (`sh`, from 500000 on) or Shenzhen (`sz`) share, one to five ASCII letters
/// a US ticker (`us_` and the letters in lower case); anything else is kept.
pub open spec fn tencent_code(s: Seq<char>) -> Seq<char> {
    if is_a_share_code(s) {
        if digits_value(s) >= 500000 {
            seq!['s', 'h'] + s
        } else {
            seq!['s', 'z'] + s
        }
    } else if (forall|i: int| 0 <= i < s.len() ==> is_ascii_alpha(#[trigger] s[i]))
        && byte_len(s) <= 5 && s.len() > 0 {
        seq!['u', 's', '_'] + s.map_values(|c: char| ascii_lower(c))
    } else {
        s
    }
}

/// The quote-service code of a symbol that is already trimmed and upper-cased.
pub fn tencent_code_of(s: &str) -> (res: String)
    ensures
        res@ == tencent_code(s@),
{
    let v = chars_of(s);
    let byte_len = s.len();
    let mut six_digits = v.len() == 6;
    let mut k: usize = 0;
    while six_digits && k < v.len()
        invariant
            k <= v.len(),
            six_digits ==> v.len() == 6 && forall|j: int| 0 <= j < k ==> is_digit(#[trigger] v@[j]),
            !six_digits ==> !is_a_share_code(v@),
        decreases v.len() - k,
    {
        let c = v[k];
        if !('0' <= c && c <= '9') {
            six_digits = false;
        }
        k += 1;
    }
    if six_digits {
        proof {
            crate::text::lemma_digits_value_below(v@);
            assert(crate::text::unsigned_digits(v@) == v@);
        }
        if let Some(n) = parse_u32(&v) {
            let mut res = String::new();
            if n >= 500000 {
                push_char(&mut res, 's');
                push_char(&mut res, 'h');
            } else {
                push_char(&mut res, 's');
                push_char(&mut res, 'z');
            }
            let body = string_from_chars(&v);
            res.append(body.as_str());
            return res;
        }
    }
    let mut all_alpha = true;
    let mut i: usize = 0;
    while i < v.len()
        invariant
            i <= v.len(),
            all_alpha <==> (forall|j: int| 0 <= j < i ==> is_ascii_alpha(#[trigger] v@[j])),
        decreases v.len() - i,
    {
        let c = v[i];
        if !(('A' <= c && c <= 'Z') || ('a' <= c && c <= 'z')) {
            all_alpha = false;
        }
        i += 1;
    }
    if all_alpha && byte_len <= 5 && v.len() > 0 {
        let lower = ascii_lowercase(&v);
        let mut res = String::new();
        push_char(&mut res, 'u');
        push_char(&mut res, 's');
        push_char(&mut res, '_');
        let tail = string_from_chars(&lower);
        res.append(tail.as_str());
        assert(res@ == seq!['u', 's', '_'] + lower@);
        return res;
    }
    string_from_chars(&v)
}

/// Maps a symbol as the user typed it to the quote service's code: the
/// symbol is trimmed, upper-cased, then looked up as `tencent_code` says.
pub fn to_tencent_symbol(symbol: &str) -> (res: String)
    ensures
        res@ == tencent_code(str_to_uppercase(trim(symbol@))),
{
    let v = chars_of(symbol);
    let t = trim_chars(&v);
    let trimmed = string_from_chars(&t);
    let upper = to_uppercase(trimmed.as_str());
    tencent_code_of(upper.as_str())
}

/// The text fields of one quote, as the quote service sends them.
pub struct QuoteFields {
    /// The code without its market prefix (`sh`, `sz` or `us_`).
    pub symbol: String,
    pub name: String,
    /// The change since the last close, as sent (a decimal number).
    pub change: String,
    /// The change in percent, as sent.
    pub change_percent: String,
    /// The last price, as sent.
    pub price: String,
}

/// The characters of each field of a `QuoteFields`.
pub struct QuoteSpec {
    pub symbol: Seq<char>,
    pub name: Seq<char>,
    pub change: Seq<char>,
    pub change_percent: Seq<char>,
    pub price: Seq<char>,
}

impl View for QuoteFields {
    type V = QuoteSpec;

    open spec fn view(&self) -> QuoteSpec {
        QuoteSpec {
            symbol: self.symbol@,
            name: self.name@,
            change: self.change@,
            change_percent: self.change_percent@,
            price: self.price@,
        }
    }
}

/// The fewest `~`-separated fields that a quote record has.
pub const MIN_QUOTE_FIELDS: usize = 45;

/// `code` without the first of the market prefixes `sh`, `sz`, `us_` that it starts with.
pub open spec fn strip_market(code: Seq<char>) -> Seq<char> {
    if code.len() >= 2 && code[0] == 's' && (code[1] == 'h' || code[1] == 'z') {
        code.skip(2)
    } else if code.len() >= 3 && code[0] == 'u' && code[1] == 's' && code[2] == '_' {
        code.skip(3)
    } else {
        code
    }
}

/// The text between the first double quote of `t` and the next one (or the end).
pub open spec fn quoted_content(t: Seq<char>) -> Seq<char> {
    let rest = t.skip(find_char(t, '"') + 1);
    rest.take(find_char(rest, '"'))
}

/// One line of the quote service's reply, read as the widget reads it: the
/// trimmed line must hold a double quote; the text in quotes is split at `~`
/// and must have at least `MIN_QUOTE_FIELDS` fields; field 1 is the name,
/// field 2 the code, fields 31, 32 and 33 the change, the change in percent
/// and the price.
pub open spec fn quote_of_line(line: Seq<char>) -> Option<QuoteSpec> {
    let t = trim(line);
    if find_char(t, '"') >= t.len() {
        None
    } else {
        let f = split_on(quoted_content(t), '~');
        if f.len() < MIN_QUOTE_FIELDS {
            None
        } else {
            Some(
                QuoteSpec {
                    symbol: strip_market(f[2]),
                    name: f[1],
                    change: f[31],
                    change_percent: f[32],
                    price: f[33],
                },
            )
        }
    }
}

/// The code in `v` without its market prefix.
fn strip_market_of(v: &Vec<char>) -> (res: String)
    ensures
        res@ == strip_market(v@),
{
    let n = v.len();
    let from: usize = if n >= 2 && v[0] == 's' && (v[1] == 'h' || v[1] == 'z') {
        2
    } else if n >= 3 && v[0] == 'u' && v[1] == 's' && v[2] == '_' {
        3
    } else {
        0
    };
    let res = string_from_range(v, from, n);
    assert(v@.skip(0) == v@);
    assert(v@.skip(from as int) == v@.subrange(from as int, n as int));
    res
}

/// Reads the text fields of one line of the quote service's reply.
pub fn parse_quote_fields(line: &str) -> (res: Option<QuoteFields>)
    ensures
        match res {
            Some(q) => quote_of_line(line@) == Some(q@),
            None => quote_of_line(line@) is None,
        },
{
    let v = chars_of(line);
    quote_fields_of_chars(&v)
}

fn quote_fields_of_chars(v: &Vec<char>) -> (res: Option<QuoteFields>)
    ensures
        match res {
            Some(q) => quote_of_line(v@) == Some(q@),
            None => quote_of_line(v@) is None,
        },
{
    let t = trim_chars(v);
    let q = find_char_in(&t, '"');
    if q >= t.len() {
        return None;
    }
    let ghost rest = t@.skip(q + 1);
    let mut rest_v: Vec<char> = Vec::new();
    let mut i = q + 1;
    while i < t.len()
        invariant
            q < i <= t.len(),
            rest_v@ == t@.subrange(q + 1, i as int),
        decreases t.len() - i,
    {
        rest_v.push(t[i]);
        assert(t@.subrange(q + 1, i + 1) == t@.subrange(q + 1, i as int).push(t@[i as int]));
        i += 1;
    }
    assert(rest_v@ == rest);
    let e = find_char_in(&rest_v, '"');
    let mut content: Vec<char> = Vec::new();
    let mut k: usize = 0;
    while k < e
        invariant
            k <= e <= rest_v.len(),
            content@ == rest_v@.take(k as int),
        decreases e - k,
    {
        content.push(rest_v[k]);
        assert(rest_v@.take(k + 1) == rest_v@.take(k as int).push(rest_v@[k as int]));
        k += 1;
    }
    assert(content@ == quoted_content(t@));
    let fields = split_chars(&content, '~');
    if fields.len() < MIN_QUOTE_FIELDS {
        return None;
    }
    let symbol = strip_market_of(&fields[2]);
    let name = string_from_chars(&fields[1]);
    let change = string_from_chars(&fields[31]);
    let change_percent = string_from_chars(&fields[32]);
    let price = string_from_chars(&fields[33]);
    Some(QuoteFields { symbol, name, change, change_percent, price })
}

/// `s` without one trailing carriage return.
pub open spec fn strip_cr(s: Seq<char>) -> Seq<char> {
    if s.len() > 0 && s.last() == '\r' {
        s.drop_last()
    } else {
        s
    }
}

/// The lines of `s` as `str::lines` yields them: split at `\n`, a `\r` just
/// before a `\n` dropped, and no empty line after a final `\n`.
pub open spec fn lines_of(s: Seq<char>) -> Seq<Seq<char>> {
    let p = split_on(s, '\n');
    let head = p.drop_last().map_values(|l: Seq<char>| strip_cr(l));
    if p.last().len() == 0 {
        head
    } else {
        head.push(p.last())
    }
}

/// The quotes read from `lines`, in order, skipping the lines that hold none.
pub open spec fn quotes_of_lines(lines: Seq<Seq<char>>) -> Seq<QuoteSpec>
    decreases lines.len(),
{
    if lines.len() == 0 {
        Seq::<QuoteSpec>::empty()
    } else {
        let q = quotes_of_lines(lines.drop_last());
        match quote_of_line(lines.last()) {
            Some(x) => q.push(x),
            None => q,
        }
    }
}

/// The lines of the characters `v`, as `lines_of` gives them.
fn lines_of_chars(v: &Vec<char>) -> (res: Vec<Vec<char>>)
    ensures
        res.len() == lines_of(v@).len(),
        forall|k: int| 0 <= k < res.len() ==> (#[trigger] res@[k])@ == lines_of(v@)[k],
{
    let pieces = split_chars(v, '\n');
    let ghost p = split_on(v@, '\n');
    proof {
        lemma_split_on_nonempty(v@, '\n');
    }
    let n = pieces.len();
    let mut res: Vec<Vec<char>> = Vec::new();
    let mut k: usize = 0;
    while k + 1 < n
        invariant
            n == pieces.len() == p.len() >= 1,
            p == split_on(v@, '\n'),
            forall|m: int| 0 <= m < n ==> (#[trigger] pieces@[m])@ == p[m],
            k <= n - 1,
            res.len() == k,
            forall|m: int| 0 <= m < k ==> (#[trigger] res@[m])@ == strip_cr(p[m]),
        decreases n - k,
    {
        let piece = &pieces[k];
        let len = piece.len();
        let keep = if len > 0 && piece[len - 1] == '\r' { len - 1 } else { len };
        let mut line: Vec<char> = Vec::new();
        let mut i: usize = 0;
        while i < keep
            invariant
                keep <= piece.len(),
                i <= keep,
                line@ == piece@.take(i as int),
            decreases keep - i,
        {
            line.push(piece[i]);
            assert(piece@.take(i + 1) == piece@.take(i as int).push(piece@[i as int]));
            i += 1;
        }
        assert(line@ == strip_cr(piece@));
        res.push(line);
        k += 1;
    }
    let last = &pieces[n - 1];
    if last.len() > 0 {
        let mut line: Vec<char> = Vec::new();
        let mut i: usize = 0;
        while i < last.len()
            invariant
                i <= last.len(),
                line@ == last@.take(i as int),
            decreases last.len() - i,
        {
            line.push(last[i]);
            assert(last@.take(i + 1) == last@.take(i as int).push(last@[i as int]));
            i += 1;
        }
        assert(last@.take(last.len() as int) == last@);
        res.push(line);
    }
    res
}

/// The quotes in a reply of the quote service, one per line that holds one, in order.
pub fn parse_quote_body(body: &str) -> (res: Vec<QuoteFields>)
    ensures
        res@.map_values(|q: QuoteFields| q@) == quotes_of_lines(lines_of(body@)),
{
    let v = chars_of(body);
    let lines = lines_of_chars(&v);
    let ghost ls = lines_of(body@);
    let mut res: Vec<QuoteFields> = Vec::new();
    let mut k: usize = 0;
    assert(ls.take(0) == Seq::<Seq<char>>::empty());
    while k < lines.len()
        invariant
            k <= lines.len() == ls.len(),
            ls == lines_of(body@),
            forall|m: int| 0 <= m < lines.len() ==> (#[trigger] lines@[m])@ == ls[m],
            res@.map_values(|q: QuoteFields| q@) == quotes_of_lines(ls.take(k as int)),
        decreases lines.len() - k,
    {
        assert(ls.take(k + 1).drop_last() == ls.take(k as int));
        assert(ls.take(k + 1).last() == lines@[k as int]@);
        let parsed = quote_fields_of_chars(&lines[k]);
        match parsed {
            Some(q) => {
                let ghost before = res@;
                res.push(q);
                assert(res@.map_values(|q: QuoteFields| q@) == before.map_values(
                    |q: QuoteFields| q@,
                ).push(q@));
            },
            None => {},
        }
        k += 1;
    }
    assert(ls.take(ls.len() as int) == ls);
    res
}

/// `parts` joined with `sep` between each two of them.
pub open spec fn join_with(parts: Seq<Seq<char>>, sep: char) -> Seq<char>
    decreases parts.len(),
{
    if parts.len() == 0 {
        Seq::<char>::empty()
    } else if parts.len() == 1 {
        parts[0]
    } else {
        join_with(parts.drop_last(), sep).push(sep) + parts.last()
    }
}

/// The service address that quotes are asked from.
pub open spec fn quote_service_prefix() -> Seq<char> {
    "https://qt.gtimg.cn/q="@
}

/// The address that asks for the quotes of `symbols`: their codes, in order,
/// joined by commas behind the service address.
pub open spec fn quote_url_spec(symbols: Seq<Seq<char>>) -> Seq<char> {
    quote_service_prefix() + join_with(
        symbols.map_values(|s: Seq<char>| tencent_code(str_to_uppercase(trim(s)))),
        ',',
    )
}

/// The address to ask the quote service for the quotes of `symbols`; none
/// where there is no symbol to ask for.
pub fn quote_url(symbols: &Vec<String>) -> (res: Option<String>)
    ensures
        symbols.len() == 0 ==> res is None,
        symbols.len() > 0 ==> (res matches Some(u) && u@ == quote_url_spec(
            symbols@.map_values(|s: String| s@),
        )),
{
    if symbols.len() == 0 {
        return None;
    }
    let ghost syms = symbols@.map_values(|s: String| s@);
    let ghost codes = syms.map_values(|s: Seq<char>| tencent_code(str_to_uppercase(trim(s))));
    let mut res = "https://qt.gtimg.cn/q=".to_owned();
    let mut i: usize = 0;
    assert(codes.take(0) == Seq::<Seq<char>>::empty());
    while i < symbols.len()
        invariant
            i <= symbols.len(),
            syms == symbols@.map_values(|s: String| s@),
            codes == syms.map_values(|s: Seq<char>| tencent_code(str_to_uppercase(trim(s)))),
            res@ == quote_service_prefix() + join_with(codes.take(i as int), ','),
        decreases symbols.len() - i,
    {
        let code = to_tencent_symbol(symbols[i].as_str());
        assert(codes.take(i + 1).drop_last() == codes.take(i as int));
        assert(codes.take(i + 1).last() == code@);
        if i > 0 {
            push_char(&mut res, ',');
        }
        let ghost before = res@;
        res.append(code.as_str());
        if i == 0 {
            assert(codes.take(1) == seq![code@]);
        }
        assert(res@ == quote_service_prefix() + join_with(codes.take(i + 1), ','));
        i += 1;
    }
    assert(codes.take(symbols.len() as int) == codes);
    Some(res)
}

} // verus!

verus! {

/// One to five ASCII letters are a US ticker: the code is `us_` followed by
/// the same letters, each in lower case.
pub proof fn law_us_ticker_code(s: Seq<char>)
    requires
        1 <= s.len() <= 5,
        forall|i: int| 0 <= i < s.len() ==> ('A' <= #[trigger] s[i] <= 'Z') || ('a' <= s[i] <= 'z'),
    ensures
        tencent_code(s).len() == s.len() + 3,
        tencent_code(s)[0] == 'u' && tencent_code(s)[1] == 's' && tencent_code(s)[2] == '_',
        forall|i: int|
            0 <= i < s.len() ==> (#[trigger] tencent_code(s)[3 + i]) as int == s[i] as int + (if s[i]
                <= 'Z' {
                32int
            } else {
                0int
            }),
{
    assert(vstd::utf8::is_ascii_chars(s));
    vstd::utf8::is_ascii_chars_encode_utf8(s);
    assert(!is_a_share_code(s)) by {
        assert(!is_digit(s[0]));
    }
    assert forall|i: int| 0 <= i < s.len() implies is_ascii_alpha(#[trigger] s[i]) by {}
    let r = tencent_code(s);
    assert(r == seq!['u', 's', '_'] + s.map_values(|c: char| ascii_lower(c)));
    assert forall|i: int| 0 <= i < s.len() implies (#[trigger] r[3 + i]) as int == s[i] as int + (if s[i]
        <= 'Z' {
        32int
    } else {
        0int
    }) by {
        assert(r[3 + i] == ascii_lower(s[i]));
    }
}

/// Six ASCII digits are a Chinese A-share: `sh` before them from `5` on as
/// first digit (500000 and up), `sz` below.
pub proof fn law_a_share_code(s: Seq<char>)
    requires
        s.len() == 6,
        forall|i: int| 0 <= i < 6 ==> '0' <= #[trigger] s[i] <= '9',
    ensures
        tencent_code(s) == (if s[0] >= '5' {
            seq!['s', 'h']
        } else {
            seq!['s', 'z']
        }) + s,
{
    assert(is_a_share_code(s));
    let d0 = (s[0] as nat - 48) as nat;
    let d1 = (s[1] as nat - 48) as nat;
    let d2 = (s[2] as nat - 48) as nat;
    let d3 = (s[3] as nat - 48) as nat;
    let d4 = (s[4] as nat - 48) as nat;
    let d5 = (s[5] as nat - 48) as nat;
    let s5 = s.drop_last();
    let s4 = s5.drop_last();
    let s3 = s4.drop_last();
    let s2 = s3.drop_last();
    let s1 = s2.drop_last();
    let s0 = s1.drop_last();
    assert(s0.len() == 0);
    assert(digits_value(s0) == 0);
    assert('0' as nat == 48);
    assert(digits_value(s1) == d0) by {
        assert(s1.last() == s[0]);
    }
    assert(digits_value(s2) == d0 * 10 + d1) by {
        assert(s2.last() == s[1]);
    }
    assert(digits_value(s3) == (d0 * 10 + d1) * 10 + d2) by {
        assert(s3.last() == s[2]);
    }
    assert(digits_value(s4) == ((d0 * 10 + d1) * 10 + d2) * 10 + d3) by {
        assert(s4.last() == s[3]);
    }
    assert(digits_value(s5) == (((d0 * 10 + d1) * 10 + d2) * 10 + d3) * 10 + d4) by {
        assert(s5.last() == s[4]);
    }
    assert(digits_value(s) == ((((d0 * 10 + d1) * 10 + d2) * 10 + d3) * 10 + d4) * 10 + d5) by {
        assert(s.last() == s[5]);
    }
    assert(d1 <= 9 && d2 <= 9 && d3 <= 9 && d4 <= 9 && d5 <= 9 && d0 <= 9);
    assert((digits_value(s) >= 500000) == (d0 >= 5)) by (nonlinear_arith)
        requires
            digits_value(s) == ((((d0 * 10 + d1) * 10 + d2) * 10 + d3) * 10 + d4) * 10 + d5,
            d0 <= 9,
            d1 <= 9,
            d2 <= 9,
            d3 <= 9,
            d4 <= 9,
            d5 <= 9,
    ;
}

/// A symbol is sent as it is when it is empty, when it holds a character
/// that is neither an ASCII letter nor an ASCII digit, or when it is more
/// than six ASCII letters and digits.
pub proof fn law_other_symbols_kept(s: Seq<char>)
    requires
        s.len() == 0 || (exists|i: int|
            0 <= i < s.len() && !('A' <= #[trigger] s[i] <= 'Z') && !('a' <= s[i] <= 'z') && !('0'
                <= s[i] <= '9')) || (6 < s.len() <= usize::MAX && forall|i: int|
            0 <= i < s.len() ==> ('A' <= #[trigger] s[i] <= 'Z') || ('a' <= s[i] <= 'z') || ('0'
                <= s[i] <= '9')),
    ensures
        tencent_code(s) == s,
{
    if 6 < s.len() <= usize::MAX && forall|i: int|
        0 <= i < s.len() ==> ('A' <= #[trigger] s[i] <= 'Z') || ('a' <= s[i] <= 'z') || ('0' <= s[i]
            <= '9') {
        assert(vstd::utf8::is_ascii_chars(s));
        vstd::utf8::is_ascii_chars_encode_utf8(s);
    } else if s.len() > 0 {
        let i = choose|i: int|
            0 <= i < s.len() && !('A' <= #[trigger] s[i] <= 'Z') && !('a' <= s[i] <= 'z') && !('0'
                <= s[i] <= '9');
        assert(!is_digit(s[i]));
        assert(!is_ascii_alpha(s[i]));
    }
}

proof fn lemma_split_on_without_sep(a: Seq<char>, sep: char)
    requires
        forall|i: int| 0 <= i < a.len() ==> #[trigger] a[i] != sep,
    ensures
        split_on(a, sep) == seq![a],
    decreases a.len(),
{
    if a.len() > 0 {
        let d = a.drop_last();
        assert forall|i: int| 0 <= i < d.len() implies #[trigger] d[i] != sep by {
            assert(d[i] == a[i]);
        }
        lemma_split_on_without_sep(d, sep);
        assert(a.last() != sep);
        assert(d.push(a.last()) == a);
        let p = split_on(d, sep);
        assert(p.len() == 1 && p.last() == d);
        assert(split_on(a, sep) == p.update(p.len() - 1, p.last().push(a.last())));
        assert(seq![d].update(0, d.push(a.last())) =~= seq![a]);
    } else {
        assert(a =~= Seq::<char>::empty());
    }
}

proof fn lemma_split_on_concat(a: Seq<char>, b: Seq<char>, sep: char)
    ensures
        split_on(a + seq![sep] + b, sep) == split_on(a, sep) + split_on(b, sep),
    decreases b.len(),
{
    let x = a + seq![sep] + b;
    if b.len() == 0 {
        assert(x == a.push(sep));
        assert(x.drop_last() == a);
        assert(split_on(a, sep) + split_on(b, sep) == split_on(a, sep).push(Seq::<char>::empty()));
    } else {
        let b1 = b.drop_last();
        lemma_split_on_concat(a, b1, sep);
        crate::text::lemma_split_on_nonempty(b1, sep);
        crate::text::lemma_split_on_nonempty(a, sep);
        assert(x.drop_last() == a + seq![sep] + b1);
        assert(x.last() == b.last());
        let pa = split_on(a, sep);
        let pb = split_on(b1, sep);
        if b.last() == sep {
            assert((pa + pb).push(Seq::<char>::empty()) == pa + pb.push(Seq::<char>::empty()));
        } else {
            let p = pa + pb;
            assert(p.update(p.len() - 1, p.last().push(b.last())) == pa + pb.update(
                pb.len() - 1,
                pb.last().push(b.last()),
            ));
        }
    }
}

/// A reply is read line by line as `str::lines` does: nothing in an empty
/// reply, one line for text without a line break, and a first line up to
/// the first `\n` (without a `\r` just before it) followed by the lines of
/// the rest.
pub proof fn law_lines_of_reply(a: Seq<char>, b: Seq<char>)
    requires
        forall|i: int| 0 <= i < a.len() ==> #[trigger] a[i] != '\n',
    ensures
        lines_of(Seq::<char>::empty()).len() == 0,
        a.len() > 0 ==> lines_of(a) == seq![a],
        lines_of(a + seq!['\n'] + b) == seq![
            if a.len() > 0 && a.last() == '\r' {
                a.drop_last()
            } else {
                a
            },
        ] + lines_of(b),
{
    lemma_split_on_without_sep(a, '\n');
    lemma_split_on_concat(a, b, '\n');
    crate::text::lemma_split_on_nonempty(b, '\n');
    assert(split_on(Seq::<char>::empty(), '\n') == seq![Seq::<char>::empty()]);
    assert(seq![Seq::<char>::empty()].drop_last() == Seq::<Seq<char>>::empty());
    if a.len() > 0 {
        assert(seq![a].drop_last() == Seq::<Seq<char>>::empty());
        assert(Seq::<Seq<char>>::empty().map_values(|l: Seq<char>| strip_cr(l)) == Seq::<
            Seq<char>,
        >::empty());
        assert(Seq::<Seq<char>>::empty().push(a) == seq![a]);
    }
    let pb = split_on(b, '\n');
    let p = seq![a] + pb;
    assert(p.drop_last() == seq![a] + pb.drop_last());
    assert(p.drop_last().map_values(|l: Seq<char>| strip_cr(l)) == seq![strip_cr(a)]
        + pb.drop_last().map_values(|l: Seq<char>| strip_cr(l)));
    assert(p.last() == pb.last());
    let hb = pb.drop_last().map_values(|l: Seq<char>| strip_cr(l));
    assert((seq![strip_cr(a)] + hb).push(pb.last()) == seq![strip_cr(a)] + hb.push(pb.last()));
}

/// The quotes of a run of lines are the quotes of its first part followed by
/// those of the rest; a single line gives its quote, if it holds one.
pub proof fn law_quotes_of_lines_concat(x: Seq<Seq<char>>, y: Seq<Seq<char>>)
    ensures
        quotes_of_lines(x + y) == quotes_of_lines(x) + quotes_of_lines(y),
        forall|l: Seq<char>|
            #[trigger] quotes_of_lines(seq![l]) == (match quote_of_line(l) {
                Some(q) => seq![q],
                None => Seq::<QuoteSpec>::empty(),
            }),
    decreases y.len(),
{
    if y.len() == 0 {
        assert(x + y == x);
    } else {
        law_quotes_of_lines_concat(x, y.drop_last());
        assert((x + y).drop_last() == x + y.drop_last());
        assert((x + y).last() == y.last());
        let qx = quotes_of_lines(x);
        let qy = quotes_of_lines(y.drop_last());
        match quote_of_line(y.last()) {
            Some(q) => {
                assert((qx + qy).push(q) == qx + qy.push(q));
            },
            None => {},
        }
    }
    assert forall|l: Seq<char>|
        #[trigger] quotes_of_lines(seq![l]) == (match quote_of_line(l) {
            Some(q) => seq![q],
            None => Seq::<QuoteSpec>::empty(),
        }) by {
        assert(seq![l].drop_last() == Seq::<Seq<char>>::empty());
        assert(seq![l].last() == l);
        assert(quotes_of_lines(Seq::<Seq<char>>::empty()) == Seq::<QuoteSpec>::empty());
        match quote_of_line(l) {
            Some(q) => {
                assert(Seq::<QuoteSpec>::empty().push(q) == seq![q]);
            },
            None => {},
        }
    }
}

/// The code a symbol is asked for by.
pub open spec fn code_of_symbol(s: Seq<char>) -> Seq<char> {
    tencent_code(str_to_uppercase(trim(s)))
}

/// The request for one symbol is the service address and its code; one more
/// symbol adds a comma and its code at the end, however many there are.
pub proof fn law_quote_url_one_code_per_symbol(syms: Seq<Seq<char>>, x: Seq<char>)
    ensures
        quote_url_spec(seq![x]) == "https://qt.gtimg.cn/q="@ + code_of_symbol(x),
        syms.len() > 0 ==> quote_url_spec(syms.push(x)) == quote_url_spec(syms) + seq![',']
            + code_of_symbol(x),
{
    let f = |s: Seq<char>| tencent_code(str_to_uppercase(trim(s)));
    assert(seq![x].map_values(f) == seq![code_of_symbol(x)]);
    let c = syms.map_values(f);
    let c2 = syms.push(x).map_values(f);
    assert(c2 == c.push(code_of_symbol(x)));
    if syms.len() > 0 {
        assert(c2.drop_last() == c);
        assert(join_with(c2, ',') == join_with(c, ',').push(',') + code_of_symbol(x));
        assert(join_with(c, ',').push(',') == join_with(c, ',') + seq![',']);
    }
}

} // verus!

verus! {

proof fn lemma_join_then_split(parts: Seq<Seq<char>>, sep: char)
    requires
        parts.len() >= 1,
        forall|i: int, j: int|
            0 <= i < parts.len() && 0 <= j < parts[i].len() ==> #[trigger] parts[i][j] != sep,
    ensures
        split_on(join_with(parts, sep), sep) == parts,
    decreases parts.len(),
{
    if parts.len() == 1 {
        let a = parts[0];
        assert forall|j: int| 0 <= j < a.len() implies #[trigger] a[j] != sep by {
            assert(parts[0][j] != sep);
        }
        lemma_split_on_without_sep(a, sep);
        assert(parts == seq![a]);
    } else {
        let d = parts.drop_last();
        let last = parts.last();
        assert forall|i: int, j: int|
            0 <= i < d.len() && 0 <= j < d[i].len() implies #[trigger] d[i][j] != sep by {
            assert(d[i] == parts[i]);
        }
        lemma_join_then_split(d, sep);
        assert forall|j: int| 0 <= j < last.len() implies #[trigger] last[j] != sep by {
            assert(parts[parts.len() - 1][j] != sep);
        }
        lemma_split_on_without_sep(last, sep);
        let jd = join_with(d, sep);
        assert(join_with(parts, sep) == jd + seq![sep] + last);
        lemma_split_on_concat(jd, last, sep);
        assert(d + seq![last] == parts);
    }
}

proof fn lemma_join_avoids(parts: Seq<Seq<char>>, sep: char, c: char)
    requires
        sep != c,
        forall|i: int, j: int|
            0 <= i < parts.len() && 0 <= j < parts[i].len() ==> #[trigger] parts[i][j] != c,
    ensures
        forall|k: int| 0 <= k < join_with(parts, sep).len() ==> #[trigger] join_with(parts, sep)[k] != c,
    decreases parts.len(),
{
    if parts.len() == 1 {
        assert forall|k: int| 0 <= k < join_with(parts, sep).len() implies #[trigger] join_with(parts, sep)[k] != c by {
            assert(parts[0][k] != c);
        }
    } else if parts.len() > 1 {
        let d = parts.drop_last();
        assert forall|i: int, j: int|
            0 <= i < d.len() && 0 <= j < d[i].len() implies #[trigger] d[i][j] != c by {
            assert(d[i] == parts[i]);
        }
        lemma_join_avoids(d, sep, c);
        let jd = join_with(d, sep);
        let last = parts.last();
        let x = jd.push(sep) + last;
        assert(join_with(parts, sep) == x);
        assert forall|k: int| 0 <= k < x.len() implies #[trigger] x[k] != c by {
            if k < jd.len() {
                assert(x[k] == jd[k]);
            } else if k > jd.len() {
                assert(x[k] == last[k - jd.len() - 1]);
                assert(parts[parts.len() - 1][k - jd.len() - 1] != c);
            }
        }
    }
}

proof fn lemma_find_char_after(p: Seq<char>, rest: Seq<char>, c: char)
    requires
        forall|i: int| 0 <= i < p.len() ==> #[trigger] p[i] != c,
    ensures
        crate::text::find_char(p + seq![c] + rest, c) == p.len(),
    decreases p.len(),
{
    let x = p + seq![c] + rest;
    if p.len() > 0 {
        let p1 = p.drop_first();
        assert forall|i: int| 0 <= i < p1.len() implies #[trigger] p1[i] != c by {
            assert(p1[i] == p[i + 1]);
        }
        lemma_find_char_after(p1, rest, c);
        assert(x.drop_first() == p1 + seq![c] + rest);
        assert(x[0] == p[0]);
    } else {
        assert(x[0] == c);
    }
}

/// A record `prefix"f0~f1~...~fn"suffix` is read field by field: with at
/// least 45 fields (none holding `~` or `"`), a prefix without `"`, and no
/// whitespace at either end of the line, the quote's name is field 1, its
/// symbol field 2 without its market prefix (`sh`, `sz` or `us_`), and its
/// change, change in percent and price fields 31, 32 and 33. With fewer
/// fields the line holds no quote.
pub proof fn law_quote_record_fields(
    prefix: Seq<char>,
    fields: Seq<Seq<char>>,
    suffix: Seq<char>,
)
    requires
        fields.len() >= 1,
        forall|i: int| 0 <= i < prefix.len() ==> #[trigger] prefix[i] != '"',
        forall|i: int, j: int|
            0 <= i < fields.len() && 0 <= j < fields[i].len() ==> #[trigger] fields[i][j] != '~'
                && fields[i][j] != '"',
        prefix.len() > 0 ==> !crate::text::char_is_whitespace(prefix[0]),
        suffix.len() > 0 ==> !crate::text::char_is_whitespace(suffix.last()),
    ensures
        ({
            let line = prefix + seq!['"'] + join_with(fields, '~') + seq!['"'] + suffix;
            let code = fields[2];
            &&& fields.len() < 45 ==> quote_of_line(line) is None
            &&& fields.len() >= 45 ==> (quote_of_line(line) matches Some(q) && q.name == fields[1]
                && q.change == fields[31] && q.change_percent == fields[32] && q.price
                == fields[33] && q.symbol == (if code.len() >= 2 && code[0] == 's' && (code[1] == 'h'
                || code[1] == 'z') {
                code.skip(2)
            } else if code.len() >= 3 && code[0] == 'u' && code[1] == 's' && code[2] == '_' {
                code.skip(3)
            } else {
                code
            }))
        }),
{
    let j = join_with(fields, '~');
    let line = prefix + seq!['"'] + j + seq!['"'] + suffix;
    let rest0 = j + seq!['"'] + suffix;
    assert(line == prefix + seq!['"'] + rest0);
    assert(line.len() > 0);
    assert(!crate::text::char_is_whitespace(line[0])) by {
        if prefix.len() > 0 {
            assert(line[0] == prefix[0]);
        } else {
            assert(line[0] == '"');
        }
    }
    assert(!crate::text::char_is_whitespace(line.last())) by {
        if suffix.len() > 0 {
            assert(line.last() == suffix.last());
        } else {
            assert(line.last() == '"');
        }
    }
    assert(crate::text::trim_start(line) == line);
    assert(trim(line) == line);
    lemma_find_char_after(prefix, rest0, '"');
    assert(line.skip(prefix.len() + 1int) == rest0);
    lemma_join_avoids(fields, '~', '"');
    lemma_find_char_after(j, suffix, '"');
    assert(rest0.take(j.len() as int) == j);
    assert(quoted_content(line) == j);
    lemma_join_then_split(fields, '~');
}

} // verus!
