use vstd::prelude::*;

use crate::error::Error;

verus! {

/// The single character on the second reply line that means "no amount".
pub open spec fn is_no_amount_marker(l: Seq<char>) -> bool {
    l.len() == 1 && l[0] == '-'
}

/// An ASCII decimal digit.
pub open spec fn is_digit(c: char) -> bool {
    48 <= c as u32 && c as u32 <= 57
}

/// Numeric value of an ASCII decimal digit.
pub open spec fn digit_val(c: char) -> int {
    c as u32 - 48
}

/// Every character of `s` is an ASCII decimal digit.
pub open spec fn all_digits(s: Seq<char>) -> bool {
    forall|i: int| 0 <= i < s.len() ==> is_digit(#[trigger] s[i])
}

/// Index of the first occurrence of `c` in `s`, or `s.len()` if absent.
pub open spec fn find_char(s: Seq<char>, c: char) -> nat
    decreases s.len(),
{
    if s.len() == 0 {
        0
    } else if s[0] == c {
        0
    } else {
        1 + find_char(s.drop_first(), c)
    }
}

/// `find_char` points at the first occurrence: nothing before it matches,
/// and it matches unless it is the length.
pub proof fn lemma_find_char(s: Seq<char>, c: char)
    ensures
        find_char(s, c) <= s.len(),
        forall|j: int| 0 <= j < find_char(s, c) ==> s[j] != c,
        find_char(s, c) < s.len() ==> s[find_char(s, c) as int] == c,
    decreases s.len(),
{
    if s.len() == 0 {
    } else if s[0] == c {
    } else {
        lemma_find_char(s.drop_first(), c);
        assert forall|j: int| 0 <= j < find_char(s, c) implies s[j] != c by {
            if j > 0 {
                assert(s.drop_first()[j - 1] == s[j]);
            }
        }
        if find_char(s, c) < s.len() {
            assert(s.drop_first()[find_char(s.drop_first(), c) as int] == s[find_char(s, c) as int]);
        }
    }
}

/// A line with a trailing carriage return has it removed.
pub open spec fn strip_cr(l: Seq<char>) -> Seq<char> {
    if l.len() > 0 && l[l.len() - 1] == '\r' {
        l.drop_last()
    } else {
        l
    }
}

/// The lines of `s`: pieces split at `'\n'`, a carriage return before each
/// split point removed, and an optional final line ending producing no
/// trailing empty line.
pub open spec fn spec_lines(s: Seq<char>) -> Seq<Seq<char>>
    decreases s.len(),
{
    if s.len() == 0 {
        Seq::empty()
    } else {
        let i = find_char(s, '\n');
        if i >= s.len() {
            seq![s]
        } else {
            seq![strip_cr(s.take(i as int))] + spec_lines(s.skip(i + 1int))
        }
    }
}

/// Splits `s` into its lines.
pub fn split_lines(s: &str) -> (r: Vec<String>)
    ensures
        r@.map_values(|l: String| l@) == spec_lines(s@),
{
    broadcast use vstd::seq_lib::group_seq_lib_default;

    let n = s.unicode_len();
    let mut lines: Vec<String> = Vec::new();
    let mut start: usize = 0;
    let mut i: usize = 0;
    proof {
        assert(s@.skip(0) =~= s@);
    }
    while i < n
        invariant
            start <= i <= n,
            n == s@.len(),
            forall|j: int| start <= j < i ==> s@[j] != '\n',
            spec_lines(s@) == lines@.map_values(|l: String| l@) + spec_lines(
                s@.skip(start as int),
            ),
        decreases n - i,
    {
        let c = s.get_char(i);
        if c == '\n' {
            let end = if i > start && s.get_char(i - 1) == '\r' {
                i - 1
            } else {
                i
            };
            let piece = s.substring_char(start, end);
            proof {
                let t = s@.skip(start as int);
                lemma_find_char(t, '\n');
                assert forall|j: int| 0 <= j < i - start implies t[j] != '\n' by {
                    assert(t[j] == s@[start + j]);
                }
                assert(t[i - start] == s@[i as int]);
                if find_char(t, '\n') < i - start {
                    assert(t[find_char(t, '\n') as int] != '\n');
                    assert(false);
                }
                if find_char(t, '\n') > i - start {
                    assert(t[i - start] != '\n');
                    assert(false);
                }
                assert(find_char(t, '\n') == i - start);
                assert(t.take(i - start) =~= s@.subrange(start as int, i as int));
                assert(strip_cr(t.take(i - start)) =~= s@.subrange(start as int, end as int));
                assert(t.skip(i - start + 1) =~= s@.skip(i + 1));
                assert(spec_lines(t) == seq![s@.subrange(start as int, end as int)] + spec_lines(
                    s@.skip(i + 1),
                ));
            }
            let ghost old_lines = lines@;
            lines.push(piece.to_owned());
            proof {
                assert(lines@.map_values(|l: String| l@) =~= old_lines.map_values(|l: String| l@)
                    + seq![s@.subrange(start as int, end as int)]);
                assert(lines@.map_values(|l: String| l@) + spec_lines(s@.skip(i + 1))
                    =~= old_lines.map_values(|l: String| l@) + spec_lines(s@.skip(start as int)));
            }
            start = i + 1;
        }
        i += 1;
    }
    if start < n {
        let piece = s.substring_char(start, n);
        proof {
            let t = s@.skip(start as int);
            lemma_find_char(t, '\n');
            assert forall|j: int| 0 <= j < t.len() implies t[j] != '\n' by {
                assert(t[j] == s@[start + j]);
            }
            if find_char(t, '\n') < t.len() {
                assert(false);
            }
            assert(t =~= s@.subrange(start as int, n as int));
            assert(spec_lines(t) == seq![s@.subrange(start as int, n as int)]);
        }
        let ghost old_lines = lines@;
        lines.push(piece.to_owned());
        proof {
            assert(lines@.map_values(|l: String| l@) =~= old_lines.map_values(|l: String| l@)
                + seq![s@.subrange(start as int, n as int)]);
        }
    } else {
        proof {
            assert(s@.skip(start as int) =~= Seq::<char>::empty());
            assert(spec_lines(s@.skip(start as int)) == Seq::<Seq<char>>::empty());
            assert(lines@.map_values(|l: String| l@) + Seq::<Seq<char>>::empty()
                =~= lines@.map_values(|l: String| l@));
        }
    }
    lines
}

/// Largest number of integer digits an amount may carry.
pub const MAX_INT_DIGITS: usize = 15;

/// Largest magnitude of an amount in hundredths: fifteen nines of integer
/// digits, ninety-nine hundredths, and a possible rounding carry.
pub const MAX_AMOUNT_CENTS: i64 = 100000000000000000;

/// Ten to the `k`.
pub open spec fn pow10(k: nat) -> int
    decreases k,
{
    if k == 0 {
        1
    } else {
        10 * pow10((k - 1) as nat)
    }
}

pub proof fn lemma_pow10_increases(a: nat, b: nat)
    requires
        a <= b,
    ensures
        pow10(a) <= pow10(b),
    decreases b,
{
    if a < b {
        lemma_pow10_increases(a, (b - 1) as nat);
        assert(pow10((b - 1) as nat) >= 1) by {
            lemma_pow10_increases(0, (b - 1) as nat);
        }
    }
}

/// Value of a string of decimal digits, most significant first.
pub open spec fn digits_val(s: Seq<char>) -> int
    decreases s.len(),
{
    if s.len() == 0 {
        0
    } else {
        10 * digits_val(s.drop_last()) + digit_val(s.last())
    }
}

/// A digit string's value is below ten to its length.
pub proof fn lemma_digits_val_bound(s: Seq<char>)
    requires
        all_digits(s),
    ensures
        0 <= digits_val(s) < pow10(s.len()),
    decreases s.len(),
{
    if s.len() > 0 {
        assert(all_digits(s.drop_last())) by {
            assert(forall|i: int|
                0 <= i < s.len() - 1 ==> #[trigger] s.drop_last()[i] == s[i]);
        }
        lemma_digits_val_bound(s.drop_last());
        assert(is_digit(s.last()));
    }
}

/// The sign part of an amount line.
pub open spec fn amount_negative(l: Seq<char>) -> bool {
    l.len() > 0 && l[0] == '-'
}

/// The amount line without its sign.
pub open spec fn amount_body(l: Seq<char>) -> Seq<char> {
    if amount_negative(l) {
        l.drop_first()
    } else {
        l
    }
}

/// The integer digits of the body: everything before the first dot.
pub open spec fn amount_int_part(body: Seq<char>) -> Seq<char> {
    body.take(find_char(body, '.') as int)
}

/// The fraction digits of the body: everything after the first dot, empty
/// when there is none.
pub open spec fn amount_frac_part(body: Seq<char>) -> Seq<char> {
    if find_char(body, '.') < body.len() {
        body.skip(find_char(body, '.') + 1int)
    } else {
        Seq::empty()
    }
}

/// A valid decimal amount: an optional minus sign, at most fifteen integer
/// digits (at least one), and optionally a dot followed by at least one
/// fraction digit.
pub open spec fn is_valid_amount(l: Seq<char>) -> bool {
    let body = amount_body(l);
    let ip = amount_int_part(body);
    let fp = amount_frac_part(body);
    &&& 0 < ip.len() <= MAX_INT_DIGITS
    &&& all_digits(ip)
    &&& find_char(body, '.') < body.len() ==> (fp.len() > 0 && all_digits(fp))
}

/// Hundredths contributed by the fraction digits, rounded half-up on the
/// third digit.
pub open spec fn frac_cents(fp: Seq<char>) -> int {
    if fp.len() == 0 {
        0
    } else if fp.len() == 1 {
        10 * digit_val(fp[0])
    } else {
        10 * digit_val(fp[0]) + digit_val(fp[1]) + if fp.len() > 2 && digit_val(fp[2]) >= 5 {
            1int
        } else {
            0int
        }
    }
}

/// The value of a valid amount line in signed hundredths.
pub open spec fn spec_amount_cents(l: Seq<char>) -> int {
    let body = amount_body(l);
    let magnitude = 100 * digits_val(amount_int_part(body)) + frac_cents(amount_frac_part(body));
    if amount_negative(l) {
        -magnitude
    } else {
        magnitude
    }
}

/// A monetary amount in signed hundredths of the run's currency unit.
#[derive(Debug, Clone, Copy, PartialEq, Eq, Structural)]
pub struct Amount {
    pub cents: i64,
}

impl Amount {
    /// Amounts stay within the range the fifteen-digit parse can produce.
    pub open spec fn wf(&self) -> bool {
        -MAX_AMOUNT_CENTS <= self.cents <= MAX_AMOUNT_CENTS
    }
}

/// The structured result of one model reply: a cleaned title and an
/// optional monetary amount. Built only by `parse_output`.
#[derive(Debug, Clone, PartialEq, Eq)]
pub struct StructuredOutput {
    pub title: String,
    pub amount: Option<Amount>,
}

impl StructuredOutput {
    pub open spec fn wf(&self) -> bool {
        self.amount matches Some(a) ==> a.wf()
    }
}

/// The amount of a structured output as a spec value in hundredths.
pub open spec fn amount_view(a: Option<Amount>) -> Option<int> {
    match a {
        Some(x) => Some(x.cents as int),
        None => None,
    }
}

/// Parses the second reply line as a decimal amount.
///
/// Succeeds exactly on the valid decimals of `is_valid_amount`; the value is
/// rounded half-up to hundredths. Every rejection is a `MalformedOutput`
/// carrying the offending text.
pub fn parse_amount(line: &str) -> (r: Result<Amount, Error>)
    ensures
        r is Ok <==> is_valid_amount(line@),
        r is Ok ==> r->Ok_0.cents as int == spec_amount_cents(line@) && r->Ok_0.wf(),
        r is Err ==> r->Err_0 is MalformedOutput,
{
    let n = line.unicode_len();
    let mut i: usize = 0;
    let negative = n > 0 && line.get_char(0) == '-';
    if negative {
        i = 1;
    }
    let off = i;
    let ghost body = line@.skip(off as int);
    proof {
        assert(amount_negative(line@) == negative);
        assert(amount_body(line@) =~= body);
        lemma_find_char(body, '.');
    }
    // Integer digits.
    let mut acc: u64 = 0;
    loop
        invariant
            off <= i <= n,
            n == line@.len(),
            off == if negative { 1int } else { 0int },
            body == line@.skip(off as int),
            body == amount_body(line@),
            i - off <= MAX_INT_DIGITS,
            all_digits(body.take(i - off)),
            acc == digits_val(body.take(i - off)),
        ensures
            off <= i <= n,
            i - off <= MAX_INT_DIGITS,
            all_digits(body.take(i - off)),
            acc == digits_val(body.take(i - off)),
            i == n || !is_digit(body[i - off]),
        decreases n - i,
    {
        if i >= n {
            break ;
        }
        let c = line.get_char(i);
        let u = c as u32;
        proof {
            assert(body[i - off] == line@[i as int]);
        }
        if !(48 <= u && u <= 57) {
            break ;
        }
        if i - off == MAX_INT_DIGITS {
            // A sixteenth integer digit: the integer part is too long to be
            // valid, whatever follows.
            proof {
                lemma_find_char(body, '.');
                let ip = amount_int_part(body);
                assert(is_digit(body[i - off]));
                assert forall|j: int| 0 <= j <= MAX_INT_DIGITS implies body[j] != '.' by {
                    if j < i - off {
                        assert(is_digit(body.take(i - off)[j]));
                    } else {
                        assert(is_digit(body[i - off]));
                    }
                }
                assert(i - off < body.len());
                if find_char(body, '.') <= MAX_INT_DIGITS {
                    assert(body[find_char(body, '.') as int] == '.');
                    assert(false);
                }
                assert(ip.len() > MAX_INT_DIGITS);
            }
            return Err(Error::MalformedOutput(
                "amount has too many integer digits: ".to_owned().concat(line),
            ));
        }
        proof {
            let k = i - off;
            let p = body.take(k);
            lemma_digits_val_bound(p);
            lemma_pow10_increases(p.len() as nat, 14);
            assert(pow10(14) == 100000000000000) by {
                reveal_with_fuel(pow10, 15);
            }
            assert(acc < 100000000000000);
            assert(body.take(k + 1).drop_last() =~= p);
            assert(body.take(k + 1).last() == c);
        }
        acc = acc * 10 + ((u - 48) as u64);
        i += 1;
    }
    let count = i - off;
    if count == 0 {
        // No integer digit: empty line, bare sign, or a stray character.
        proof {
            let ip = amount_int_part(body);
            if body.len() > 0 && body[0] != '.' {
                assert(find_char(body, '.') >= 1);
                assert(!is_digit(ip[0]));
            }
        }
        return Err(Error::MalformedOutput("amount has no digits: ".to_owned().concat(line)));
    }
    proof {
        assert forall|j: int| 0 <= j < count implies body[j] != '.' by {
            assert(is_digit(body.take(count as int)[j]));
        }
    }
    if i == n {
        // Digits only: a whole number of currency units.
        proof {
            if find_char(body, '.') < body.len() {
                assert(false);
            }
            assert(amount_int_part(body) =~= body.take(count as int));
            assert(amount_frac_part(body) == Seq::<char>::empty());
            lemma_digits_val_bound(body.take(count as int));
            lemma_pow10_increases(count as nat, 15);
            assert(pow10(15) == 1000000000000000) by {
                reveal_with_fuel(pow10, 16);
            }
        }
        let magnitude: u64 = acc * 100;
        let cents: i64 = if negative {
            -(magnitude as i64)
        } else {
            magnitude as i64
        };
        return Ok(Amount { cents });
    }
    let c = line.get_char(i);
    proof {
        assert(body[count as int] == line@[i as int]);
    }
    if !(c == '.') {
        // Something other than a dot after the integer digits.
        proof {
            if find_char(body, '.') <= count {
                assert(false);
            }
            assert(!is_digit(amount_int_part(body)[count as int]));
        }
        return Err(Error::MalformedOutput("not a decimal amount: ".to_owned().concat(line)));
    }
    proof {
        if find_char(body, '.') < count {
            assert(false);
        }
        assert(find_char(body, '.') == count);
        assert(amount_int_part(body) =~= body.take(count as int));
    }
    i += 1;
    let fs = i;
    let ghost fp = body.skip(count + 1int);
    proof {
        assert(amount_frac_part(body) == fp);
    }
    if i >= n {
        // A dot with no fraction digit after it.
        proof {
            assert(fp.len() == 0);
        }
        return Err(Error::MalformedOutput(
            "amount ends after the decimal point: ".to_owned().concat(line),
        ));
    }
    let mut fc: u64 = 0;
    loop
        invariant
            fs <= i <= n,
            n == line@.len(),
            fs - off == count + 1,
            off <= count,
            body == line@.skip(off as int),
            body == amount_body(line@),
            fp == body.skip(count + 1int),
            all_digits(body.take(count as int)),
            count < body.len(),
            body[count as int] == '.',
            all_digits(fp.take(i - fs)),
            fc == frac_cents(fp.take(i - fs)),
            fc <= 100,
        ensures
            i == n,
            all_digits(fp),
            fc == frac_cents(fp),
            fc <= 100,
        decreases n - i,
    {
        if i >= n {
            proof {
                assert(fp.take(i - fs) =~= fp);
            }
            break ;
        }
        let c2 = line.get_char(i);
        let u2 = c2 as u32;
        proof {
            assert(fp[i - fs] == line@[i as int]);
        }
        if !(48 <= u2 && u2 <= 57) {
            // A non-digit among the fraction digits.
            proof {
                lemma_find_char(body, '.');
                assert forall|j: int| 0 <= j < count implies body[j] != '.' by {
                    assert(is_digit(body.take(count as int)[j]));
                }
                if find_char(body, '.') < count {
                    assert(false);
                }
                assert(find_char(body, '.') == count);
                assert(amount_frac_part(body) == fp);
                assert(0 <= i - fs < fp.len());
                assert(!is_digit(fp[i - fs]));
                assert(!all_digits(fp));
            }
            return Err(Error::MalformedOutput("not a decimal amount: ".to_owned().concat(line)));
        }
        let j = i - fs;
        proof {
            assert(fp.take(i + 1 - fs).drop_last() =~= fp.take(i - fs));
            assert(fp.take(i + 1 - fs)[j as int] == c2);
            assert(forall|m: int|
                0 <= m < j ==> #[trigger] fp.take(i + 1 - fs)[m] == fp.take(i - fs)[m]);
        }
        if j == 0 {
            fc = 10 * ((u2 - 48) as u64);
        } else if j == 1 {
            fc = fc + ((u2 - 48) as u64);
        } else if j == 2 {
            if u2 - 48 >= 5 {
                fc = fc + 1;
            }
        }
        i += 1;
    }
    proof {
        assert(fp.len() > 0);
        lemma_digits_val_bound(body.take(count as int));
        lemma_pow10_increases(count as nat, 15);
        assert(pow10(15) == 1000000000000000) by {
            reveal_with_fuel(pow10, 16);
        }
    }
    let magnitude: u64 = acc * 100 + fc;
    let cents: i64 = if negative {
        -(magnitude as i64)
    } else {
        magnitude as i64
    };
    Ok(Amount { cents })
}

/// A reply is well-formed when it has exactly two lines, the first is a
/// non-empty title, and the second is the no-amount marker or a valid
/// decimal.
pub open spec fn spec_output_valid(s: Seq<char>) -> bool {
    &&& spec_lines(s).len() == 2
    &&& spec_lines(s)[0].len() > 0
    &&& (is_no_amount_marker(spec_lines(s)[1]) || is_valid_amount(spec_lines(s)[1]))
}

/// The title a well-formed reply carries: its first line, verbatim.
pub open spec fn spec_output_title(s: Seq<char>) -> Seq<char> {
    spec_lines(s)[0]
}

/// The amount a well-formed reply carries, in hundredths.
pub open spec fn spec_output_amount(s: Seq<char>) -> Option<int> {
    if is_no_amount_marker(spec_lines(s)[1]) {
        None
    } else {
        Some(spec_amount_cents(spec_lines(s)[1]))
    }
}

/// Validates and decodes one raw model reply.
///
/// Strict by design: the reply must be exactly two lines; line one is the
/// title as produced, which may not be empty, line two the no-amount
/// marker or a decimal. The
/// grammar constraint sent with the request makes conformance likely but is
/// not trusted; everything else fails as `MalformedOutput`.
pub fn parse_output(raw: &str) -> (r: Result<StructuredOutput, Error>)
    ensures
        r is Ok <==> spec_output_valid(raw@),
        r is Ok ==> r->Ok_0.title@ == spec_output_title(raw@),
        r is Ok ==> r->Ok_0.title@.len() > 0,
        r is Ok ==> amount_view(r->Ok_0.amount) == spec_output_amount(raw@),
        r is Ok ==> r->Ok_0.wf(),
        r is Err ==> r->Err_0 is MalformedOutput,
{
    let lines = split_lines(raw);
    proof {
        assert(lines@.map_values(|l: String| l@).len() == lines@.len());
    }
    if lines.len() != 2 {
        return Err(Error::MalformedOutput("reply is not exactly two lines: ".to_owned().concat(raw)));
    }
    proof {
        assert(lines@.map_values(|l: String| l@)[0] == lines@[0]@);
        assert(lines@.map_values(|l: String| l@)[1] == lines@[1]@);
    }
    if lines[0].as_str().unicode_len() == 0 {
        return Err(Error::MalformedOutput("reply title line is empty: ".to_owned().concat(raw)));
    }
    let title = lines[0].clone();
    let second = &lines[1];
    let second_len = second.as_str().unicode_len();
    if second_len == 1 && second.as_str().get_char(0) == '-' {
        Ok(StructuredOutput { title, amount: None })
    } else {
        proof {
            assert(!is_no_amount_marker(second@));
        }
        match parse_amount(second.as_str()) {
            Ok(a) => Ok(StructuredOutput { title, amount: Some(a) }),
            Err(e) => Err(e),
        }
    }
}

} // verus!
