//! Scoring of model output: finding the number in a judge's reply, the
//! prompts sent to the generator and the judge, the names of result files,
//! and the retry discipline of each benchmarked entry.
use vstd::prelude::*;
use vstd::string::*;
use vstd::utf8::*;

verus! {

#[verifier::external_type_specification]
#[verifier::external_body]
pub struct ExRegex(regex::Regex);

#[verifier::external_type_specification]
#[verifier::external_body]
pub struct ExRegexError(regex::Error);

/// Whether `regex::Regex::new` accepts a pattern (its syntax is valid and its
/// compiled form fits the default size limit).
pub uninterp spec fn regex_compiles(pattern: Seq<char>) -> bool;

/// The byte offsets of the leftmost-first match of a pattern in a haystack,
/// as `regex::Regex::find` reports them.
pub uninterp spec fn regex_first_span(pattern: Seq<char>, haystack: Seq<char>) -> Option<(usize, usize)>;

/// The text between byte offsets `start` and `end` of the UTF-8 encoding of
/// `text`.
pub open spec fn span_text(text: Seq<char>, start: int, end: int) -> Seq<char> {
    decode_utf8(encode_utf8(text).subrange(start, end))
}

/// Byte offsets that delimit a piece of `text` without splitting a character.
pub open spec fn valid_span(text: Seq<char>, start: int, end: int) -> bool {
    &&& 0 <= start <= end <= encode_utf8(text).len()
    &&& is_char_boundary(encode_utf8(text), start)
    &&& is_char_boundary(encode_utf8(text), end)
}

/// Calls `regex::Regex::new(pattern)`. It succeeds exactly on the patterns
/// that `regex_compiles` names; nothing is stated of the compiled value
/// beyond what `regex_find` says of it.
#[verifier::external_body]
fn regex_new(pattern: &str) -> (r: Result<regex::Regex, regex::Error>)
    ensures
        r is Ok <==> regex_compiles(pattern@),
{
    regex::Regex::new(pattern)
}

/// Calls `regex::Regex::find` on the regex compiled from `p.source()` and
/// hands back the match's byte offsets. The crate documents that a match's
/// offsets fall on character boundaries of the haystack; which match is
/// found is named by `regex_first_span`.
#[verifier::external_body]
fn regex_find(p: &CompiledPattern, text: &str) -> (r: Option<(usize, usize)>)
    ensures
        r == regex_first_span(p.source(), text@),
        r matches Some((s, e)) ==> valid_span(text@, s as int, e as int),
{
    match p.regex.find(text) {
        Some(m) => Some((m.start(), m.end())),
        None => None,
    }
}

/// A pattern that did not compile.
#[derive(Clone, Copy, Debug, PartialEq, Eq, Structural)]
pub enum PatternError {
    Invalid,
}

/// A compiled regular expression together with the pattern it was compiled
/// from.
pub struct CompiledPattern {
    regex: regex::Regex,
    pattern: String,
}

impl CompiledPattern {
    /// The pattern this was compiled from.
    pub closed spec fn source(&self) -> Seq<char> {
        self.pattern@
    }

    /// Compiles `pattern`.
    pub fn compile(pattern: &str) -> (r: Result<CompiledPattern, PatternError>)
        ensures
            r is Ok <==> regex_compiles(pattern@),
            r matches Ok(c) ==> c.source() == pattern@,
    {
        match regex_new(pattern) {
            Ok(regex) => Ok(CompiledPattern { regex, pattern: String::from_str(pattern) }),
            Err(_) => Err(PatternError::Invalid),
        }
    }

    /// The text of the first match in `text`, if there is one.
    pub fn find(&self, text: &str) -> (r: Option<String>)
        ensures
            r is Some <==> regex_first_span(self.source(), text@) is Some,
            r matches Some(m) ==> regex_first_span(self.source(), text@) matches Some((s, e))
                && m@ == span_text(text@, s as int, e as int),
            r matches Some(m) ==> regex_first_span(self.source(), text@) matches Some((s, e))
                && encode_utf8(m@) == encode_utf8(text@).subrange(s as int, e as int),
    {
        match regex_find(self, text) {
            Some((start, end)) => Some(matched_text(text, start, end)),
            None => None,
        }
    }
}

/// The piece of `text` between the byte offsets `start` and `end`.
pub fn matched_text(text: &str, start: usize, end: usize) -> (r: String)
    requires
        valid_span(text@, start as int, end as int),
    ensures
        r@ == span_text(text@, start as int, end as int),
        encode_utf8(r@) == encode_utf8(text@).subrange(start as int, end as int),
{
    broadcast use encode_utf8_decode_utf8, encode_utf8_valid_utf8;

    let ghost bytes = encode_utf8(text@);
    let (_skipped, rest) = text.split_at(start);
    proof {
        let rb = encode_utf8(rest@);
        assert(rb =~= bytes.subrange(start as int, bytes.len() as int));
        if end as int == bytes.len() {
            is_char_boundary_start_end_of_seq(rb);
        } else {
            is_char_boundary_iff_not_is_continuation_byte(bytes, end as int);
            is_char_boundary_iff_not_is_continuation_byte(rb, end - start);
            assert(rb[end - start] == bytes[end as int]);
        }
    }
    let (piece, _after) = rest.split_at(end - start);
    proof {
        assert(encode_utf8(piece@) =~= bytes.subrange(start as int, end as int));
        encode_utf8_decode_utf8(piece@);
    }
    let r = piece.to_owned();
    assert(encode_utf8(r@) == encode_utf8(text@).subrange(start as int, end as int));
    r
}

/// The pattern of a decimal number, with optional sign, fraction and
/// exponent, that the judge's reply is searched for.
pub const NUMBER_PATTERN: &'static str = r"[-+]?\d*\.?\d+([eE][-+]?\d+)?";

/// The first number written in a judge's reply, as text; the pattern is
/// compiled on each call.
pub fn first_number_text(text: &str) -> (r: Result<Option<String>, PatternError>)
    ensures
        r is Err <==> !regex_compiles(NUMBER_PATTERN@),
        r matches Ok(m) ==> (m is Some <==> regex_first_span(NUMBER_PATTERN@, text@) is Some),
        r matches Ok(Some(m)) ==> regex_first_span(NUMBER_PATTERN@, text@) matches Some((s, e))
            && m@ == span_text(text@, s as int, e as int),
        r matches Ok(Some(m)) ==> regex_first_span(NUMBER_PATTERN@, text@) matches Some((s, e))
            && encode_utf8(m@) == encode_utf8(text@).subrange(s as int, e as int),
{
    let re = CompiledPattern::compile(NUMBER_PATTERN)?;
    Ok(re.find(text))
}

/// The message that asks the generator for a Cypher query answering
/// `question` over `schema`.
pub fn generation_prompt(schema: &str, question: &str) -> (r: String)
    ensures
        r@ == schema@ + "\n\nQuestion:\n"@ + question@,
{
    let mut r = String::from_str(schema);
    r.append("\n\nQuestion:\n");
    r.append(question);
    r
}

/// The message that asks the judge to score a generated query against the
/// ground-truth query of the same schema.
pub fn validation_prompt(schema: &str, ground: &str, generated: &str) -> (r: String)
    ensures
        r@ == "Schema: "@ + schema@ + "\nGround Truth: "@ + ground@ + "\nGenerated: "@ + generated@
            + "\nScore from 0 to 1:"@,
{
    let mut r = String::from_str("Schema: ");
    r.append(schema);
    r.append("\nGround Truth: ");
    r.append(ground);
    r.append("\nGenerated: ");
    r.append(generated);
    r.append("\nScore from 0 to 1:");
    r
}

/// The message that asks the judge to score how well a dataset entry's query
/// fits its schema and question.
pub fn evaluation_prompt(schema: &str, cypher: &str, question: &str) -> (r: String)
    ensures
        r@ == "Graph Schema: "@ + schema@ + "\nCypher Query: "@ + cypher@ + "\nNL Query"@ + question@
            + "\nScore from 0 to 1:"@,
{
    let mut r = String::from_str("Graph Schema: ");
    r.append(schema);
    r.append("\nCypher Query: ");
    r.append(cypher);
    r.append("\nNL Query");
    r.append(question);
    r.append("\nScore from 0 to 1:");
    r
}

/// The character of a decimal digit.
pub open spec fn digit_char(d: int) -> char {
    if d == 0 {
        '0'
    } else if d == 1 {
        '1'
    } else if d == 2 {
        '2'
    } else if d == 3 {
        '3'
    } else if d == 4 {
        '4'
    } else if d == 5 {
        '5'
    } else if d == 6 {
        '6'
    } else if d == 7 {
        '7'
    } else if d == 8 {
        '8'
    } else {
        '9'
    }
}

/// The value of a decimal digit character (other characters count as 0).
pub open spec fn digit_value(c: char) -> int {
    if c == '1' {
        1
    } else if c == '2' {
        2
    } else if c == '3' {
        3
    } else if c == '4' {
        4
    } else if c == '5' {
        5
    } else if c == '6' {
        6
    } else if c == '7' {
        7
    } else if c == '8' {
        8
    } else if c == '9' {
        9
    } else {
        0
    }
}

/// The number that a string of decimal digits denotes.
pub open spec fn numeral_value(s: Seq<char>) -> int
    decreases s.len(),
{
    if s.len() == 0 {
        0
    } else {
        numeral_value(s.drop_last()) * 10 + digit_value(s.last())
    }
}

/// The decimal numeral of `n`, without leading zeros.
pub open spec fn decimal(n: nat) -> Seq<char>
    decreases n,
{
    if n < 10 {
        seq![digit_char(n as int)]
    } else {
        decimal(n / 10).push(digit_char((n % 10) as int))
    }
}

/// The decimal numeral of `n`, padded with zeros on the left to at least
/// `width` characters.
pub open spec fn zero_padded(n: nat, width: nat) -> Seq<char> {
    let d = decimal(n);
    if d.len() >= width {
        d
    } else {
        Seq::new((width - d.len()) as nat, |i: int| '0') + d
    }
}

/// Width of the entry number in a result file's name.
pub const INDEX_WIDTH: usize = 8;

/// The name of the result file of entry `k` of a dataset whose file stem is
/// `prefix`: the stem, a hyphen, the entry number padded to eight digits, and
/// the `json` extension.
pub open spec fn result_name(prefix: Seq<char>, k: nat) -> Seq<char> {
    prefix + "-"@ + zero_padded(k, INDEX_WIDTH as nat) + ".json"@
}

fn digit_str(d: u8) -> (r: &'static str)
    requires
        d < 10,
    ensures
        r@ == seq![digit_char(d as int)],
{
    proof {
        reveal_strlit("0");
        reveal_strlit("1");
        reveal_strlit("2");
        reveal_strlit("3");
        reveal_strlit("4");
        reveal_strlit("5");
        reveal_strlit("6");
        reveal_strlit("7");
        reveal_strlit("8");
        reveal_strlit("9");
    }
    match d {
        0 => "0",
        1 => "1",
        2 => "2",
        3 => "3",
        4 => "4",
        5 => "5",
        6 => "6",
        7 => "7",
        8 => "8",
        _ => "9",
    }
}

/// The name of the file that the result of entry `k` is written to.
pub fn result_file_name(prefix: &str, k: usize) -> (r: String)
    ensures
        r@ == result_name(prefix@, k as nat),
        // The prefix, a hyphen, the number, and the `json` extension ...
        r@.len() >= prefix@.len() + 1 + INDEX_WIDTH + 5,
        r@.subrange(0, prefix@.len() as int) == prefix@,
        r@[prefix@.len() as int] == '-',
        r@.subrange(r@.len() - 5, r@.len() as int) == seq!['.', 'j', 's', 'o', 'n'],
        // ... where the number is written in decimal digits, denotes `k`, and
        // has leading zeros only to fill eight digits.
        forall|i: int|
            prefix@.len() + 1 <= i < r@.len() - 5 ==> 48 <= #[trigger] (r@[i] as u32) <= 57,
        numeral_value(r@.subrange(prefix@.len() + 1int, r@.len() - 5)) == k,
        r@.len() - 5 - (prefix@.len() + 1) > INDEX_WIDTH ==> r@[prefix@.len() + 1int] != '0',
{
    // The digits of `k` after its leading one, most significant first.
    let mut high: Vec<u8> = Vec::new();
    let mut m: usize = k;
    let ghost mut tail: Seq<char> = Seq::empty();
    while m >= 10
        invariant
            decimal(k as nat) == decimal(m as nat) + tail,
            tail.len() == high.len(),
            forall|i: int| 0 <= i < high.len() ==> #[trigger] high@[i] < 10,
            forall|i: int| 0 <= i < high.len() ==> tail[i] == digit_char(#[trigger] high@[i] as int),
        decreases m,
    {
        let d: u8 = (m % 10) as u8;
        let ghost old_high = high@;
        proof {
            let t2 = seq![digit_char(d as int)] + tail;
            assert(decimal(m as nat) == decimal((m / 10) as nat).push(digit_char(d as int)));
            assert(decimal(m as nat) + tail =~= decimal((m / 10) as nat) + t2);
            tail = t2;
        }
        high.insert(0, d);
        proof {
            assert forall|i: int| 0 <= i < high.len() implies #[trigger] high@[i] < 10 && tail[i]
                == digit_char(high@[i] as int) by {
                if i > 0 {
                    assert(high@[i] == old_high[i - 1]);
                }
            }
        }
        m = m / 10;
    }
    let ghost digits = decimal(k as nat);
    assert(digits =~= seq![digit_char(m as int)] + tail);
    let mut r = String::from_str(prefix);
    r.append("-");
    let ghost head = r@;
    let mut z: usize = 0;
    while z < INDEX_WIDTH && high.len() < INDEX_WIDTH - z - 1
        invariant
            z <= INDEX_WIDTH,
            z == 0 || z + high.len() + 1 <= INDEX_WIDTH,
            r@ == head + Seq::new(z as nat, |i: int| '0'),
        decreases INDEX_WIDTH - z,
    {
        proof {
            reveal_strlit("0");
        }
        r.append("0");
        assert(Seq::new((z + 1) as nat, |i: int| '0') =~= Seq::new(z as nat, |i: int| '0').push('0'));
        z += 1;
    }
    let ghost zeros = Seq::new(z as nat, |i: int| '0');
    assert(zeros + digits =~= zero_padded(k as nat, INDEX_WIDTH as nat)) by {
        if digits.len() < INDEX_WIDTH {
            assert(z == INDEX_WIDTH - digits.len());
        } else {
            assert(z == 0);
        }
    }
    r.append(digit_str(m as u8));
    let mut j: usize = 0;
    while j < high.len()
        invariant
            j <= high.len(),
            forall|i: int| 0 <= i < high.len() ==> #[trigger] high@[i] < 10,
            tail.len() == high.len(),
            forall|i: int| 0 <= i < high.len() ==> tail[i] == digit_char(#[trigger] high@[i] as int),
            r@ == head + zeros + seq![digit_char(m as int)] + tail.take(j as int),
        decreases high.len() - j,
    {
        r.append(digit_str(high[j]));
        assert(tail.take(j + 1) =~= tail.take(j as int).push(digit_char(high@[j as int] as int)));
        j += 1;
    }
    assert(tail.take(high.len() as int) =~= tail);
    r.append(".json");
    assert(r@ =~= result_name(prefix@, k as nat));
    proof {
        lemma_result_name_shape(prefix@, k as nat);
    }
    r
}

proof fn lemma_decimal_shape(n: nat)
    ensures
        decimal(n).len() >= 1,
        n >= 10 ==> decimal(n).len() >= 2,
        forall|i: int| 0 <= i < decimal(n).len() ==> 48 <= #[trigger] (decimal(n)[i] as u32) <= 57,
        decimal(n).len() > 1 ==> decimal(n)[0] != '0',
        numeral_value(decimal(n)) == n,
    decreases n,
{
    lemma_decimal_value(n);
    if n >= 10 {
        lemma_decimal_shape(n / 10);
        let d = (n % 10) as int;
        assert(decimal(n) == decimal(n / 10).push(digit_char(d)));
        assert forall|i: int| 0 <= i < decimal(n).len() implies 48 <= #[trigger] (decimal(n)[i] as u32) <= 57 by {
            if i < decimal(n / 10).len() {
                assert(decimal(n)[i] == decimal(n / 10)[i]);
            } else {
                assert(decimal(n)[i] == digit_char(d));
            }
        }
        if decimal(n / 10).len() == 1 {
            assert(n / 10 >= 1 && n / 10 < 10);
            assert(decimal(n / 10) == seq![digit_char((n / 10) as int)]);
        }
        assert(decimal(n)[0] == decimal(n / 10)[0]);
    }
}

/// The name of a result file is the dataset's stem, a hyphen, the entry
/// number in decimal (zero-padded to eight digits, no other leading zeros),
/// and the `json` extension.
pub proof fn lemma_result_name_shape(prefix: Seq<char>, k: nat)
    ensures
        ({
            let r = result_name(prefix, k);
            &&& r.len() >= prefix.len() + 1 + INDEX_WIDTH + 5
            &&& r.subrange(0, prefix.len() as int) == prefix
            &&& r[prefix.len() as int] == '-'
            &&& r.subrange(r.len() - 5, r.len() as int) == seq!['.', 'j', 's', 'o', 'n']
            &&& forall|i: int| prefix.len() + 1 <= i < r.len() - 5 ==> 48 <= #[trigger] (r[i] as u32) <= 57
            &&& numeral_value(r.subrange(prefix.len() + 1int, r.len() - 5)) == k
            &&& r.len() - 5 - (prefix.len() + 1) > INDEX_WIDTH ==> r[prefix.len() + 1int] != '0'
        }),
{
    reveal_strlit("-");
    reveal_strlit(".json");
    let r = result_name(prefix, k);
    let d = decimal(k);
    let p = zero_padded(k, INDEX_WIDTH as nat);
    lemma_decimal_shape(k);
    let zeros = Seq::new((INDEX_WIDTH - d.len()) as nat, |i: int| '0');
    lemma_leading_zeros_value(zeros, d);
    assert(numeral_value(p) == k);
    assert forall|i: int| 0 <= i < p.len() implies 48 <= #[trigger] (p[i] as u32) <= 57 by {
        if d.len() < INDEX_WIDTH && i < INDEX_WIDTH - d.len() {
            assert(p[i] == '0');
        } else if d.len() < INDEX_WIDTH {
            assert(p[i] == d[i - (INDEX_WIDTH - d.len())]);
        }
    }
    assert(r.subrange(prefix.len() + 1int, r.len() - 5) =~= p);
    assert(r.subrange(0, prefix.len() as int) =~= prefix);
    assert(r.subrange(r.len() - 5, r.len() as int) =~= seq!['.', 'j', 's', 'o', 'n']);
    assert forall|i: int| prefix.len() + 1 <= i < r.len() - 5 implies 48 <= #[trigger] (r[i] as u32) <= 57 by {
        assert(r[i] == p[i - prefix.len() - 1]);
    }
}

proof fn lemma_decimal_value(n: nat)
    ensures
        numeral_value(decimal(n)) == n,
    decreases n,
{
    if n < 10 {
        assert(digit_value(digit_char(n as int)) == n);
        assert(decimal(n).drop_last() =~= Seq::<char>::empty());
        assert(decimal(n).last() == digit_char(n as int));
        assert(numeral_value(Seq::<char>::empty()) == 0);
        assert(numeral_value(decimal(n)) == numeral_value(decimal(n).drop_last()) * 10 + digit_value(decimal(n).last()));
    } else {
        lemma_decimal_value(n / 10);
        let d = (n % 10) as int;
        assert(digit_value(digit_char(d)) == d);
        assert(decimal(n).drop_last() =~= decimal(n / 10));
        assert(decimal(n).last() == digit_char(d));
        assert((n / 10) * 10 + d == n);
        assert(numeral_value(decimal(n)) == numeral_value(decimal(n).drop_last()) * 10 + digit_value(decimal(n).last()));
    }
}

proof fn lemma_leading_zeros_value(zeros: Seq<char>, s: Seq<char>)
    requires
        forall|i: int| 0 <= i < zeros.len() ==> #[trigger] zeros[i] == '0',
    ensures
        numeral_value(zeros + s) == numeral_value(s),
    decreases s.len(), zeros.len(),
{
    if s.len() == 0 {
        assert(zeros + s =~= zeros);
        if zeros.len() > 0 {
            lemma_leading_zeros_value(zeros.drop_last(), s);
            assert(zeros.drop_last() + s =~= zeros.drop_last());
        }
    } else {
        lemma_leading_zeros_value(zeros, s.drop_last());
        assert((zeros + s).drop_last() =~= zeros + s.drop_last());
    }
}

/// Distinct entries get distinct result files: no entry's result overwrites
/// another's.
pub proof fn lemma_result_names_distinct(prefix: Seq<char>, k1: nat, k2: nat)
    requires
        k1 != k2,
    ensures
        result_name(prefix, k1) != result_name(prefix, k2),
{
    reveal_strlit("-");
    reveal_strlit(".json");
    let p1 = zero_padded(k1, INDEX_WIDTH as nat);
    let p2 = zero_padded(k2, INDEX_WIDTH as nat);
    lemma_decimal_value(k1);
    lemma_decimal_value(k2);
    lemma_leading_zeros_value(Seq::new((INDEX_WIDTH - decimal(k1).len()) as nat, |i: int| '0'), decimal(k1));
    lemma_leading_zeros_value(Seq::new((INDEX_WIDTH - decimal(k2).len()) as nat, |i: int| '0'), decimal(k2));
    assert(numeral_value(p1) == k1);
    assert(numeral_value(p2) == k2);
    if result_name(prefix, k1) == result_name(prefix, k2) {
        let a = result_name(prefix, k1);
        let start = prefix.len() + 1;
        assert(p1 =~= a.subrange(start as int, a.len() - 5));
        assert(p2 =~= a.subrange(start as int, a.len() - 5));
    }
}

/// Where one entry of a benchmark run stands: its query is generated, then
/// judged, then the result is saved.
#[derive(Clone, Copy, Debug, PartialEq, Eq, Structural)]
pub enum PretrainStage {
    Generate,
    Validate,
    Save,
    Done,
}

/// The stage after an attempt at `stage`: success moves on, and any failure
/// starts the entry over with a fresh generation.
pub fn next_pretrain_stage(stage: PretrainStage, succeeded: bool) -> (r: PretrainStage)
    ensures
        stage == PretrainStage::Done ==> r == PretrainStage::Done,
        stage != PretrainStage::Done && !succeeded ==> r == PretrainStage::Generate,
        stage == PretrainStage::Generate && succeeded ==> r == PretrainStage::Validate,
        stage == PretrainStage::Validate && succeeded ==> r == PretrainStage::Save,
        stage == PretrainStage::Save && succeeded ==> r == PretrainStage::Done,
{
    match stage {
        PretrainStage::Done => PretrainStage::Done,
        _ => if !succeeded {
            PretrainStage::Generate
        } else {
            match stage {
                PretrainStage::Generate => PretrainStage::Validate,
                PretrainStage::Validate => PretrainStage::Save,
                _ => PretrainStage::Done,
            }
        },
    }
}

/// Where one entry of a dataset evaluation stands: it is judged, then the
/// result is saved.
#[derive(Clone, Copy, Debug, PartialEq, Eq, Structural)]
pub enum EvaluationStage {
    Validate,
    Save,
    Done,
}

/// The stage after an attempt at `stage`: success moves on, and any failure
/// asks the judge again.
pub fn next_evaluation_stage(stage: EvaluationStage, succeeded: bool) -> (r: EvaluationStage)
    ensures
        stage == EvaluationStage::Done ==> r == EvaluationStage::Done,
        stage != EvaluationStage::Done && !succeeded ==> r == EvaluationStage::Validate,
        stage == EvaluationStage::Validate && succeeded ==> r == EvaluationStage::Save,
        stage == EvaluationStage::Save && succeeded ==> r == EvaluationStage::Done,
{
    match stage {
        EvaluationStage::Done => EvaluationStage::Done,
        EvaluationStage::Validate => if succeeded {
            EvaluationStage::Save
        } else {
            EvaluationStage::Validate
        },
        EvaluationStage::Save => if succeeded {
            EvaluationStage::Done
        } else {
            EvaluationStage::Validate
        },
    }
}

} // verus!
