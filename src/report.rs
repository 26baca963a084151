use vstd::prelude::*;

use crate::registry::same_text;

verus! {

/// Why one validator's report was rejected.
#[derive(Debug, Clone, Copy, PartialEq, Eq, Structural)]
pub enum ReportError {
    /// A field is neither the missing marker nor an acceptable number.
    InvalidValue,
    /// The report does not hold one field per expected symbol.
    MismatchedLength,
}

/// A character with the Unicode White_Space property.
pub open spec fn is_white_space(c: char) -> bool {
    let n = c as u32;
    (0x9 <= n <= 0xd) || n == 0x20 || n == 0x85 || n == 0xa0 || n == 0x1680 || (0x2000 <= n
        <= 0x200a) || n == 0x2028 || n == 0x2029 || n == 0x202f || n == 0x205f || n == 0x3000
}

/// The text without its leading white space.
pub open spec fn trim_start(s: Seq<char>) -> Seq<char>
    decreases s.len(),
{
    if s.len() > 0 && is_white_space(s[0]) {
        trim_start(s.drop_first())
    } else {
        s
    }
}

/// The text without its trailing white space.
pub open spec fn trim_end(s: Seq<char>) -> Seq<char>
    decreases s.len(),
{
    if s.len() > 0 && is_white_space(s.last()) {
        trim_end(s.drop_last())
    } else {
        s
    }
}

/// The text without leading and trailing white space.
pub open spec fn trimmed(s: Seq<char>) -> Seq<char> {
    trim_end(trim_start(s))
}

/// Relies on str::trim: it removes leading and trailing characters with the
/// Unicode White_Space property, as its documentation states.
#[verifier::external_body]
fn trim_field(s: &str) -> (r: String)
    ensures
        r@ == trimmed(s@),
{
    s.trim().to_string()
}

/// Every character of the text is white space.
pub open spec fn all_white_space(w: Seq<char>) -> bool {
    forall|i: int| 0 <= i < w.len() ==> is_white_space(#[trigger] w[i])
}

proof fn lemma_trim_start_prefix(w: Seq<char>, x: Seq<char>)
    requires
        all_white_space(w),
    ensures
        trim_start(w + x) == trim_start(x),
    decreases w.len(),
{
    if w.len() > 0 {
        assert((w + x)[0] == w[0]);
        assert((w + x).drop_first() =~= w.drop_first() + x);
        lemma_trim_start_prefix(w.drop_first(), x);
    } else {
        assert(w + x =~= x);
    }
}

proof fn lemma_trim_end_suffix(x: Seq<char>, w: Seq<char>)
    requires
        all_white_space(w),
    ensures
        trim_end(x + w) == trim_end(x),
    decreases w.len(),
{
    if w.len() > 0 {
        assert((x + w).last() == w.last());
        assert((x + w).drop_last() =~= x + w.drop_last());
        lemma_trim_end_suffix(x, w.drop_last());
    } else {
        assert(x + w =~= x);
    }
}

proof fn lemma_trim_start_append(f: Seq<char>, y: Seq<char>)
    ensures
        trim_start(f).len() > 0 ==> trim_start(f + y) == trim_start(f) + y,
        trim_start(f).len() == 0 ==> trim_start(f + y) == trim_start(y),
    decreases f.len(),
{
    if f.len() == 0 {
        assert(f + y =~= y);
    } else {
        assert((f + y)[0] == f[0]);
        if is_white_space(f[0]) {
            assert((f + y).drop_first() =~= f.drop_first() + y);
            lemma_trim_start_append(f.drop_first(), y);
        }
    }
}

proof fn lemma_trim_white_space(w: Seq<char>)
    requires
        all_white_space(w),
    ensures
        trim_start(w).len() == 0,
    decreases w.len(),
{
    if w.len() > 0 {
        lemma_trim_white_space(w.drop_first());
    }
}

/// White space before and after a field does not change what it trims to.
pub proof fn lemma_trimmed_ignores_padding(before: Seq<char>, f: Seq<char>, after: Seq<char>)
    requires
        all_white_space(before),
        all_white_space(after),
    ensures
        trimmed(before + f + after) == trimmed(f),
{
    assert(before + f + after =~= before + (f + after));
    lemma_trim_start_prefix(before, f + after);
    lemma_trim_start_append(f, after);
    if trim_start(f).len() > 0 {
        lemma_trim_end_suffix(trim_start(f), after);
    } else {
        lemma_trim_white_space(after);
        assert(trim_start(after) =~= trim_start(f));
    }
}

/// The comma-separated fields of a text, untrimmed. A text without a comma
/// is one field; an empty text is one empty field.
pub open spec fn split_commas(s: Seq<char>) -> Seq<Seq<char>>
    decreases s.len(),
{
    if s.len() == 0 {
        seq![seq![]]
    } else {
        let rest = split_commas(s.drop_last());
        if s.last() == ',' {
            rest.push(seq![])
        } else {
            rest.update(rest.len() - 1, rest.last().push(s.last()))
        }
    }
}

/// The trimmed fields of a report.
pub open spec fn report_fields_of(s: Seq<char>) -> Seq<Seq<char>> {
    split_commas(s).map_values(|f: Seq<char>| trimmed(f))
}

/// The marker a validator writes for a symbol it has no value for.
pub open spec fn is_missing_marker(f: Seq<char>) -> bool {
    f == seq!['-']
}

/// Splits a report on commas and trims each field.
pub fn report_fields(raw: &str) -> (r: Vec<String>)
    ensures
        r.deep_view() == report_fields_of(raw@),
{
    let n = raw.unicode_len();
    let mut r: Vec<String> = Vec::new();
    let mut start: usize = 0;
    let mut i: usize = 0;
    let ghost mut head: Seq<Seq<char>> = seq![];
    assert(raw@.subrange(0, 0) =~= Seq::<char>::empty());
    assert(split_commas(raw@.subrange(0, 0)) =~= head.push(raw@.subrange(0, 0)));
    assert(r.deep_view() =~= head.map_values(|f: Seq<char>| trimmed(f)));
    while i < n
        invariant
            n == raw@.len(),
            start <= i <= n,
            split_commas(raw@.subrange(0, i as int)) == head.push(raw@.subrange(start as int, i as int)),
            r.deep_view() == head.map_values(|f: Seq<char>| trimmed(f)),
        decreases n - i,
    {
        let ghost pre = raw@.subrange(0, i as int);
        let ghost next = raw@.subrange(0, i + 1);
        assert(next.drop_last() =~= pre);
        assert(next.last() == raw@[i as int]);
        let c = raw.get_char(i);
        if c == ',' {
            let field = trim_field(raw.substring_char(start, i));
            let ghost before = r.deep_view();
            let ghost fv = field@;
            r.push(field);
            proof {
                assert(r.deep_view() =~= before.push(fv));
                head = head.push(raw@.subrange(start as int, i as int));
                assert(r.deep_view() =~= head.map_values(|f: Seq<char>| trimmed(f)));
                assert(raw@.subrange(i + 1, i + 1) =~= Seq::<char>::empty());
                assert(split_commas(next) =~= head.push(raw@.subrange(i + 1, i + 1)));
            }
            start = i + 1;
        } else {
            assert(raw@.subrange(start as int, i + 1) =~= raw@.subrange(start as int, i as int).push(c));
            assert(split_commas(next) =~= head.push(raw@.subrange(start as int, i + 1)));
        }
        i = i + 1;
    }
    let field = trim_field(raw.substring_char(start, n));
    let ghost before = r.deep_view();
    let ghost fv = field@;
    r.push(field);
    proof {
        assert(r.deep_view() =~= before.push(fv));
        assert(raw@.subrange(0, n as int) =~= raw@);
        assert(r.deep_view() =~= report_fields_of(raw@));
    }
    r
}

/// `x` is an outcome that `parse_value` may give on a text holding `f`.
pub open spec fn parses_to<T, P: Fn(&str) -> Option<T>>(
    parse_value: P,
    f: Seq<char>,
    x: Option<T>,
) -> bool {
    exists|a: &str| a@ == f && #[trigger] parse_value.ensures((a,), x)
}

/// `r` is what one field `f` of a report stands for: nothing for the
/// missing marker, otherwise the number that `parse_value` read, or a
/// rejection where `parse_value` read none.
pub open spec fn field_outcome<T, P: Fn(&str) -> Option<T>>(
    parse_value: P,
    f: Seq<char>,
    r: Result<Option<T>, ReportError>,
) -> bool {
    if is_missing_marker(f) {
        r == Ok::<Option<T>, ReportError>(None)
    } else {
        match r {
            Ok(Some(x)) => parses_to(parse_value, f, Some(x)),
            Ok(None) => false,
            Err(e) => e == ReportError::InvalidValue && parses_to(parse_value, f, None),
        }
    }
}

/// Reads one field of a report: the missing marker `-` stands for no value;
/// any other text goes to `parse_value`, which yields the number, or nothing
/// where the text is not an acceptable (non-negative) number.
pub fn validate_value<T, P: Fn(&str) -> Option<T>>(v: &str, parse_value: &P) -> (r: Result<
    Option<T>,
    ReportError,
>)
    requires
        forall|a: &str| parse_value.requires((a,)),
    ensures
        field_outcome(*parse_value, v@, r),
{
    if same_text(v, "-") {
        proof {
            reveal_strlit("-");
            assert("-"@ =~= seq!['-']);
        }
        Ok(None)
    } else {
        proof {
            reveal_strlit("-");
            assert("-"@ =~= seq!['-']);
        }
        let parsed = parse_value(v);
        assert(parse_value.ensures((v,), parsed));
        match parsed {
            Some(x) => Ok(Some(x)),
            None => Err(ReportError::InvalidValue),
        }
    }
}

/// `r` is what a report with the trimmed `fields` stands for: with one field
/// per expected symbol that all read, the values in order; a field that does
/// not read rejects it; a field count other than `length` rejects it.
pub open spec fn report_outcome<T, P: Fn(&str) -> Option<T>>(
    parse_value: P,
    fields: Seq<Seq<char>>,
    length: int,
    r: Result<Seq<Option<T>>, ReportError>,
) -> bool {
    &&& (fields.len() != length ==> r is Err)
    &&& match r {
        Ok(v) => {
            &&& v.len() == length
            &&& fields.len() == length
            &&& forall|k: int|
                0 <= k < length ==> field_outcome(parse_value, fields[k], Ok(#[trigger] v[k]))
        },
        Err(ReportError::InvalidValue) => exists|k: int|
            0 <= k < fields.len() && field_outcome(
                parse_value,
                #[trigger] fields[k],
                Err(ReportError::InvalidValue),
            ),
        Err(ReportError::MismatchedLength) => fields.len() != length,
    }
}

/// A parse result with the values as a sequence.
pub open spec fn rows_result<T>(r: Result<Vec<Option<T>>, ReportError>) -> Result<
    Seq<Option<T>>,
    ReportError,
> {
    match r {
        Ok(v) => Ok(v@),
        Err(e) => Err(e),
    }
}

/// Reads the trimmed fields of one report: each the missing marker or an
/// acceptable number, one per expected symbol. The first rejected field
/// rejects the report; a field count other than `length` rejects it too.
pub fn parse_fields<T, P: Fn(&str) -> Option<T>>(
    fields: &Vec<String>,
    length: usize,
    parse_value: &P,
) -> (r: Result<Vec<Option<T>>, ReportError>)
    requires
        forall|a: &str| parse_value.requires((a,)),
    ensures
        report_outcome(*parse_value, fields.deep_view(), length as int, rows_result(r)),
{
    let ghost fs = fields.deep_view();
    let mut parsed: Vec<Option<T>> = Vec::new();
    let mut i: usize = 0;
    while i < fields.len()
        invariant
            fields.deep_view() == fs,
            forall|a: &str| parse_value.requires((a,)),
            i <= fields.len(),
            parsed@.len() == i,
            forall|k: int| 0 <= k < i ==> field_outcome(*parse_value, fs[k], Ok(#[trigger] parsed@[k])),
        decreases fields.len() - i,
    {
        assert(fields[i as int]@ == fs[i as int]);
        match validate_value(fields[i].as_str(), parse_value) {
            Ok(x) => {
                parsed.push(x);
            },
            Err(e) => {
                assert(field_outcome(*parse_value, fs[i as int], Err(e)));
                return Err(ReportError::InvalidValue);
            },
        }
        i = i + 1;
    }
    if parsed.len() != length {
        return Err(ReportError::MismatchedLength);
    }
    Ok(parsed)
}

/// Validates and parses one validator's report for a data source: one field
/// per expected symbol, each the missing marker or an acceptable number.
pub fn validate_and_parse_output<T, P: Fn(&str) -> Option<T>>(
    ds_output: &str,
    length: usize,
    parse_value: &P,
) -> (r: Result<Vec<Option<T>>, ReportError>)
    requires
        forall|a: &str| parse_value.requires((a,)),
    ensures
        report_outcome(*parse_value, report_fields_of(ds_output@), length as int, rows_result(r)),
{
    let fields = report_fields(ds_output);
    parse_fields(&fields, length, parse_value)
}

/// White space around the commas of a report, or at either end, changes
/// nothing: two reports whose fields differ only by white space padding
/// have the same trimmed fields, so each reads as the other does.
pub proof fn lemma_report_ignores_padding(
    s1: Seq<char>,
    s2: Seq<char>,
    before: Seq<Seq<char>>,
    after: Seq<Seq<char>>,
)
    requires
        split_commas(s2).len() == split_commas(s1).len(),
        before.len() == split_commas(s1).len(),
        after.len() == split_commas(s1).len(),
        forall|k: int|
            0 <= k < split_commas(s1).len() ==> all_white_space(#[trigger] before[k])
                && all_white_space(after[k]) && split_commas(s2)[k] == before[k] + split_commas(
                s1,
            )[k] + after[k],
    ensures
        report_fields_of(s2) == report_fields_of(s1),
{
    assert forall|k: int| 0 <= k < split_commas(s1).len() implies report_fields_of(s2)[k]
        == report_fields_of(s1)[k] by {
        assert(all_white_space(before[k]));
        lemma_trimmed_ignores_padding(before[k], split_commas(s1)[k], after[k]);
    }
    assert(report_fields_of(s2) =~= report_fields_of(s1));
}

} // verus!
