//! Serializing projected histograms into the Prometheus text format.
//!
//! For a histogram named `M` the encoder writes a `# HELP` line (when the
//! description is not empty), a `# TYPE` line, one `M_bucket` sample line
//! per cumulative bucket with the bound in the `le` label (the final bucket
//! as `+Inf`), then `M_sum` and `M_count` sample lines. Label values escape
//! backslash, newline and double quote; help text escapes backslash and
//! newline. Bounds and the sum are printed as canonical-unit decimals.

use vstd::arithmetic::div_mod::lemma_div_denominator;
use vstd::prelude::*;

use crate::metric::MetricDescription;
use crate::prometheus_histogram::Bucket;
use crate::prometheus_histogram::BucketBound;
use crate::prometheus_histogram::PrometheusHistogram;

verus! {

/// Relies on std's String::push: appends one character.
#[verifier::external_body]
fn push_char(s: &mut String, c: char)
    ensures
        (*final(s))@ == old(s)@.push(c),
{
    s.push(c);
}

/// The decimal digit character for one digit value.
pub open spec fn spec_digit(d: int) -> char {
    ((48 + d) as u8) as char
}

/// The decimal rendering of a natural number, most significant digit first.
pub open spec fn spec_dec(n: nat) -> Seq<char>
    decreases n,
{
    if n < 10 {
        seq![spec_digit(n as int)]
    } else {
        spec_dec(n / 10).push(spec_digit((n % 10) as int))
    }
}

/// Powers of ten.
pub open spec fn pow10(w: nat) -> nat
    decreases w,
{
    if w == 0 {
        1
    } else {
        10 * pow10((w - 1) as nat)
    }
}

proof fn lemma_pow10_positive(w: nat)
    ensures
        pow10(w) >= 1,
    decreases w,
{
    if w > 0 {
        lemma_pow10_positive((w - 1) as nat);
    }
}

/// The low `width` decimal digits of a natural number, zero padded.
pub open spec fn spec_fixed_dec(n: nat, width: nat) -> Seq<char>
    decreases width,
{
    if width == 0 {
        Seq::empty()
    } else {
        spec_fixed_dec(n / 10, (width - 1) as nat).push(spec_digit((n % 10) as int))
    }
}

/// Extending a fixed-width rendering by one digit prepends the next higher
/// digit of the value.
proof fn lemma_fixed_dec_step(n: nat, w: nat)
    ensures
        spec_fixed_dec(n, w + 1) == seq![spec_digit(((n / pow10(w)) % 10) as int)]
            + spec_fixed_dec(n, w),
    decreases w,
{
    lemma_pow10_positive(w);
    if w == 0 {
        assert(spec_fixed_dec(n / 10, 0) =~= Seq::<char>::empty());
        assert(spec_fixed_dec(n, 0) =~= Seq::<char>::empty());
        assert(spec_fixed_dec(n, 1) == spec_fixed_dec(n / 10, 0).push(
            spec_digit((n % 10) as int),
        ));
        assert(pow10(0) == 1);
        assert(n / pow10(0) == n) by {
            vstd::arithmetic::div_mod::lemma_div_basics(n as int);
        }
        assert(spec_fixed_dec(n, 1) =~= seq![spec_digit((n % 10) as int)]
            + spec_fixed_dec(n, 0));
    } else {
        lemma_fixed_dec_step(n / 10, (w - 1) as nat);
        lemma_pow10_positive((w - 1) as nat);
        lemma_div_denominator(n as int, 10, pow10((w - 1) as nat) as int);
        assert(10 * pow10((w - 1) as nat) == pow10(w));
        assert((n / 10) / pow10((w - 1) as nat) == n / pow10(w));
        assert(spec_fixed_dec(n, w + 1) == spec_fixed_dec(n / 10, w).push(
            spec_digit((n % 10) as int),
        ));
        assert(spec_fixed_dec(n / 10, w) == seq![
            spec_digit(((n / pow10(w)) % 10) as int),
        ] + spec_fixed_dec(n / 10, (w - 1) as nat));
        assert(spec_fixed_dec(n, w + 1) =~= seq![spec_digit(((n / pow10(w)) % 10) as int)]
            + spec_fixed_dec(n, w));
    }
}

/// The sequence with its trailing zero digits removed.
pub open spec fn spec_trim_zeros(s: Seq<char>) -> Seq<char>
    decreases s.len(),
{
    if s.len() > 0 && s.last() == '0' {
        spec_trim_zeros(s.drop_last())
    } else {
        s
    }
}

/// The decimal rendering of a quantity of billionths of a unit: the whole
/// part, then, when not whole, a point and the fractional digits without
/// trailing zeros.
pub open spec fn spec_nano_dec(v: nat) -> Seq<char> {
    let whole = v / 1_000_000_000;
    let frac = v % 1_000_000_000;
    if frac == 0 {
        spec_dec(whole)
    } else {
        spec_dec(whole).push('.') + spec_trim_zeros(spec_fixed_dec(frac, 9))
    }
}

/// Render a natural number in decimal.
pub fn u128_to_dec(n: u128) -> (s: String)
    ensures
        s@ == spec_dec(n as nat),
{
    let mut digits: Vec<char> = Vec::new();
    let mut m: u128 = n;
    loop
        invariant_except_break
            digits@.len() == 0 ==> m == n,
            digits@.len() > 0 ==> m > 0 && spec_dec(n as nat) == spec_dec(m as nat)
                + digits@.reverse(),
        ensures
            digits@.len() > 0,
            spec_dec(n as nat) == digits@.reverse(),
        decreases m,
    {
        let d: u8 = (m % 10) as u8;
        let ghost old_digits = digits@;
        let ghost old_m = m as nat;
        digits.push((48 + d) as char);
        proof {
            assert(digits@.reverse() =~= seq![spec_digit((old_m % 10) as int)]
                + old_digits.reverse());
        }
        m = m / 10;
        proof {
            if old_digits.len() == 0 {
                assert(spec_dec(n as nat) + old_digits.reverse() =~= spec_dec(n as nat));
            }
            assert(spec_dec(n as nat) == spec_dec(old_m) + old_digits.reverse());
            if old_m >= 10 {
                assert(spec_dec(old_m) == spec_dec(old_m / 10).push(
                    spec_digit((old_m % 10) as int),
                ));
                assert(spec_dec(old_m / 10) + digits@.reverse() =~= spec_dec(old_m)
                    + old_digits.reverse());
            } else {
                assert(spec_dec(old_m) =~= seq![spec_digit((old_m % 10) as int)]);
                assert(spec_dec(old_m) + old_digits.reverse() =~= digits@.reverse());
            }
        }
        if m == 0 {
            break;
        }
    }
    let ghost rev = digits@.reverse();
    let mut s = String::new();
    let mut i: usize = 0;
    proof {
        assert(rev.take(0) =~= Seq::<char>::empty());
        assert(s@ =~= rev.take(0));
    }
    while i < digits.len()
        invariant
            i <= digits@.len(),
            rev == digits@.reverse(),
            s@ == rev.take(i as int),
        decreases digits@.len() - i,
    {
        proof {
            assert(rev[i as int] == digits@[digits@.len() - i - 1]);
        }
        push_char(&mut s, digits[digits.len() - 1 - i]);
        i += 1;
        proof {
            assert(s@ =~= rev.take(i as int));
        }
    }
    proof {
        assert(rev.take(digits@.len() as int) =~= rev);
    }
    s
}

/// Render a quantity of billionths of a unit as a canonical-unit decimal.
pub fn nanos_to_dec(v: u128) -> (s: String)
    ensures
        s@ == spec_nano_dec(v as nat),
{
    let whole: u128 = v / 1_000_000_000;
    let frac: u128 = v % 1_000_000_000;
    let mut s = u128_to_dec(whole);
    if frac == 0 {
        return s;
    }
    push_char(&mut s, '.');
    let ghost head = spec_dec((v as nat) / 1_000_000_000).push('.');
    let mut digits: Vec<char> = Vec::new();
    let mut m: u128 = frac;
    let mut w: usize = 0;
    proof {
        assert(pow10(0) == 1);
        assert(digits@.reverse() =~= spec_fixed_dec(frac as nat, 0));
    }
    while w < 9
        invariant
            w <= 9,
            frac < 1_000_000_000,
            digits@.len() == w,
            digits@.reverse() == spec_fixed_dec(frac as nat, w as nat),
            m == frac as nat / pow10(w as nat),
        decreases 9 - w,
    {
        let d: u8 = (m % 10) as u8;
        let ghost old_digits = digits@;
        digits.push((48 + d) as char);
        proof {
            lemma_pow10_positive(w as nat);
            lemma_fixed_dec_step(frac as nat, w as nat);
            assert(digits@.reverse() =~= seq![
                spec_digit(((frac as nat / pow10(w as nat)) % 10) as int),
            ] + old_digits.reverse());
            lemma_div_denominator(frac as int, pow10(w as nat) as int, 10);
            assert(pow10(w as nat) * 10 == 10 * pow10(w as nat));
            assert(pow10((w + 1) as nat) == 10 * pow10(w as nat));
        }
        m = m / 10;
        w += 1;
    }
    let ghost rev = digits@.reverse();
    // Find where the trailing zeros start.
    let mut end: usize = 0;
    let mut scan: usize = digits.len();
    proof {
        assert(rev.take(scan as int) =~= rev);
    }
    while scan > 0
        invariant_except_break
            scan <= rev.len(),
            digits@.len() == rev.len(),
            rev == digits@.reverse(),
            rev.len() == 9,
            end == 0,
            spec_trim_zeros(rev.take(scan as int)) == spec_trim_zeros(rev),
        ensures
            end <= rev.len(),
            digits@.len() == rev.len(),
            rev == digits@.reverse(),
            rev.len() == 9,
            spec_trim_zeros(rev) == rev.take(end as int),
        decreases scan,
    {
        proof {
            assert(rev[scan - 1] == digits@[digits@.len() - scan]);
        }
        if digits[digits.len() - scan] != '0' {
            end = scan;
            proof {
                assert(rev.take(end as int).last() == rev[end - 1]);
                assert(spec_trim_zeros(rev.take(end as int)) == rev.take(end as int));
            }
            break;
        }
        proof {
            assert(rev.take(scan as int).last() == rev[scan - 1]);
            assert(rev.take(scan as int).drop_last() =~= rev.take(scan - 1));
        }
        scan -= 1;
        proof {
            if scan == 0 {
                assert(rev.take(0) =~= Seq::<char>::empty());
            }
        }
    }
    proof {
        assert(s@ == head);
        assert(head + rev.take(0) =~= head);
    }
    let mut i: usize = 0;
    while i < end
        invariant
            i <= end,
            end <= digits@.len(),
            digits@.len() == 9,
            rev == digits@.reverse(),
            s@ == head + rev.take(i as int),
        decreases end - i,
    {
        proof {
            assert(rev[i as int] == digits@[digits@.len() - i - 1]);
        }
        push_char(&mut s, digits[digits.len() - 1 - i]);
        i += 1;
        proof {
            assert(s@ =~= head + rev.take(i as int));
        }
    }
    proof {
        assert(s@ == head + rev.take(end as int));
        assert(rev.take(end as int) == spec_trim_zeros(rev));
        assert(s@ =~= spec_nano_dec(v as nat));
    }
    s
}

/// One escaped character: backslash and newline always escape; the double
/// quote escapes only in label values.
pub open spec fn spec_escape_char(c: char, include_double_quote: bool) -> Seq<char> {
    if c == '\\' {
        seq!['\\', '\\']
    } else if c == '\n' {
        seq!['\\', 'n']
    } else if c == '"' && include_double_quote {
        seq!['\\', '"']
    } else {
        seq![c]
    }
}

/// The escaped form of a string.
pub open spec fn spec_escape(s: Seq<char>, include_double_quote: bool) -> Seq<char>
    decreases s.len(),
{
    if s.len() == 0 {
        Seq::empty()
    } else {
        spec_escape(s.drop_last(), include_double_quote) + spec_escape_char(
            s.last(),
            include_double_quote,
        )
    }
}

/// Replaces `\` by `\\`, the newline character by `\n`, and `"` by `\"` if
/// `include_double_quote` is true.
pub fn escape_string(v: &str, include_double_quote: bool) -> (r: String)
    ensures
        r@ == spec_escape(v@, include_double_quote),
{
    let n: usize = v.unicode_len();
    let mut out = String::new();
    let mut i: usize = 0;
    proof {
        assert(v@.take(0) =~= Seq::<char>::empty());
    }
    while i < n
        invariant
            n == v@.len(),
            i <= n,
            out@ == spec_escape(v@.take(i as int), include_double_quote),
        decreases n - i,
    {
        let c: char = v.get_char(i);
        if c == '\\' {
            push_char(&mut out, '\\');
            push_char(&mut out, '\\');
        } else if c == '\n' {
            push_char(&mut out, '\\');
            push_char(&mut out, 'n');
        } else if c == '"' && include_double_quote {
            push_char(&mut out, '\\');
            push_char(&mut out, '"');
        } else {
            push_char(&mut out, c);
        }
        proof {
            assert(v@.take(i + 1).drop_last() =~= v@.take(i as int));
            assert(v@.take(i + 1).last() == v@[i as int]);
            assert(out@ =~= spec_escape(v@.take(i as int), include_double_quote)
                + spec_escape_char(v@[i as int], include_double_quote));
        }
        i += 1;
    }
    proof {
        assert(v@.take(n as int) =~= v@);
    }
    out
}

/// The views of a list of label pairs.
pub open spec fn pairs_view(s: Seq<(String, String)>) -> Seq<(Seq<char>, Seq<char>)> {
    s.map_values(|p: (String, String)| (p.0@, p.1@))
}

/// One rendered label pair: `name="escaped-value"`.
pub open spec fn spec_label_pair(p: (Seq<char>, Seq<char>)) -> Seq<char> {
    p.0 + seq!['=', '"'] + spec_escape(p.1, true) + seq!['"']
}

/// Label pairs joined with commas.
pub open spec fn spec_joined_pairs(pairs: Seq<(Seq<char>, Seq<char>)>) -> Seq<char>
    decreases pairs.len(),
{
    if pairs.len() == 0 {
        Seq::empty()
    } else if pairs.len() == 1 {
        spec_label_pair(pairs[0])
    } else {
        spec_joined_pairs(pairs.drop_last()) + seq![','] + spec_label_pair(pairs.last())
    }
}

/// The rendered label block: empty without labels, else the joined pairs in
/// braces.
pub open spec fn spec_label_block(pairs: Seq<(Seq<char>, Seq<char>)>) -> Seq<char> {
    if pairs.len() == 0 {
        Seq::empty()
    } else {
        seq!['{'] + spec_joined_pairs(pairs) + seq!['}']
    }
}

/// Append one label pair to the output.
fn append_label_pair(out: &mut String, name: &String, value: &String)
    ensures
        (*final(out))@ == old(out)@ + spec_label_pair((name@, value@)),
{
    out.append(name.as_str());
    push_char(out, '=');
    push_char(out, '"');
    let escaped = escape_string(value.as_str(), true);
    out.append(escaped.as_str());
    push_char(out, '"');
    proof {
        assert(out@ =~= old(out)@ + spec_label_pair((name@, value@)));
    }
}

/// Append the label block for the metric's tags followed by the extra
/// labels: `{a="x",b="y"}`, or nothing when there are no labels at all.
pub fn add_label_pairs(
    tags: &Vec<(String, String)>,
    additional_labels: &Vec<(String, String)>,
    out: &mut String,
)
    ensures
        (*final(out))@ == old(out)@ + spec_label_block(
            pairs_view(tags@) + pairs_view(additional_labels@),
        ),
{
    let ghost all = pairs_view(tags@) + pairs_view(additional_labels@);
    if tags.len() == 0 && additional_labels.len() == 0 {
        proof {
            assert(all.len() == 0);
            assert(old(out)@ + spec_label_block(all) =~= old(out)@);
        }
        return;
    }
    push_char(out, '{');
    let ghost base = old(out)@ + seq!['{'];
    let mut k: usize = 0;
    proof {
        assert(all.take(0) =~= Seq::<(Seq<char>, Seq<char>)>::empty());
        assert(out@ =~= base + spec_joined_pairs(all.take(0)));
    }
    while k < tags.len()
        invariant
            k <= tags@.len(),
            all == pairs_view(tags@) + pairs_view(additional_labels@),
            all.len() == tags@.len() + additional_labels@.len(),
            out@ == base + spec_joined_pairs(all.take(k as int)),
        decreases tags@.len() - k,
    {
        if k > 0 {
            push_char(out, ',');
        }
        append_label_pair(out, &tags[k].0, &tags[k].1);
        proof {
            assert(all[k as int] == (tags@[k as int].0@, tags@[k as int].1@));
            assert(all.take(k + 1).drop_last() =~= all.take(k as int));
            assert(all.take(k + 1).last() == all[k as int]);
            assert(out@ =~= base + spec_joined_pairs(all.take(k + 1)));
        }
        k += 1;
    }
    let ghost t = tags@.len() as int;
    let mut k: usize = 0;
    while k < additional_labels.len()
        invariant
            k <= additional_labels@.len(),
            t == tags@.len(),
            all == pairs_view(tags@) + pairs_view(additional_labels@),
            all.len() == tags@.len() + additional_labels@.len(),
            out@ == base + spec_joined_pairs(all.take(t + k)),
        decreases additional_labels@.len() - k,
    {
        if tags.len() > 0 || k > 0 {
            push_char(out, ',');
        }
        append_label_pair(out, &additional_labels[k].0, &additional_labels[k].1);
        proof {
            assert(all[t + k] == (additional_labels@[k as int].0@, additional_labels@[
                k as int].1@));
            assert(all.take(t + k + 1).drop_last() =~= all.take(t + k));
            assert(all.take(t + k + 1).last() == all[t + k]);
            assert(out@ =~= base + spec_joined_pairs(all.take(t + k + 1)));
        }
        k += 1;
    }
    push_char(out, '}');
    proof {
        assert(all.take(all.len() as int) =~= all);
        assert(out@ =~= old(out)@ + spec_label_block(all));
    }
}

/// One rendered sample line: the name, the label block, a space, the value,
/// optionally a space and the timestamp, and a newline.
pub open spec fn spec_sample_line(
    name: Seq<char>,
    tags: Seq<(Seq<char>, Seq<char>)>,
    extra: Seq<(Seq<char>, Seq<char>)>,
    value: Seq<char>,
    timestamp: Option<u64>,
) -> Seq<char> {
    let head = name + spec_label_block(tags + extra) + seq![' '] + value;
    let timed = match timestamp {
        Some(ts) => head + seq![' '] + spec_dec(ts as nat),
        None => head,
    };
    timed + seq!['\n']
}

/// Append one sample line for a metric: name, labels, rendered value, and
/// the optional timestamp in milliseconds.
pub fn write_sample(
    name: &str,
    metric_description: &MetricDescription,
    additional_labels: &Vec<(String, String)>,
    value: &str,
    timestamp: Option<u64>,
    out: &mut String,
)
    ensures
        (*final(out))@ == old(out)@ + spec_sample_line(
            name@,
            pairs_view(metric_description.tags@),
            pairs_view(additional_labels@),
            value@,
            timestamp,
        ),
{
    out.append(name);
    add_label_pairs(&metric_description.tags, additional_labels, out);
    push_char(out, ' ');
    out.append(value);
    match timestamp {
        Some(ts) => {
            push_char(out, ' ');
            let rendered = u128_to_dec(ts as u128);
            out.append(rendered.as_str());
        },
        None => {},
    }
    push_char(out, '\n');
    proof {
        assert(out@ =~= old(out)@ + spec_sample_line(
            name@,
            pairs_view(metric_description.tags@),
            pairs_view(additional_labels@),
            value@,
            timestamp,
        ));
    }
}

/// The rendering of one bucket bound for the `le` label.
pub open spec fn spec_bound_text(bound: BucketBound) -> Seq<char> {
    match bound {
        BucketBound::Finite(b) => spec_nano_dec(b as nat),
        BucketBound::Inf => "+Inf"@,
    }
}

/// The rendered bucket lines of a histogram, in bucket order.
pub open spec fn spec_bucket_lines(
    name: Seq<char>,
    tags: Seq<(Seq<char>, Seq<char>)>,
    buckets: Seq<Bucket>,
    ts: u64,
) -> Seq<char>
    decreases buckets.len(),
{
    if buckets.len() == 0 {
        Seq::empty()
    } else {
        spec_bucket_lines(name, tags, buckets.drop_last(), ts) + spec_sample_line(
            name + "_bucket"@,
            tags,
            seq![("le"@, spec_bound_text(buckets.last().upper_bound))],
            spec_dec(buckets.last().count as nat),
            Some(ts),
        )
    }
}

/// The whole exposition block of one histogram.
pub open spec fn spec_encode_histogram(h: PrometheusHistogram) -> Seq<char> {
    let name = h.metric_description.name@;
    let tags = pairs_view(h.metric_description.tags@);
    let help = if h.metric_description.description@.len() == 0 {
        Seq::<char>::empty()
    } else {
        "# HELP "@ + name + seq![' '] + spec_escape(h.metric_description.description@, false)
            + seq!['\n']
    };
    help + "# TYPE "@ + name + " histogram\n"@ + spec_bucket_lines(
        name,
        tags,
        h.buckets@,
        h.timestamp_ms,
    ) + spec_sample_line(
        name + "_sum"@,
        tags,
        Seq::empty(),
        spec_nano_dec(h.sum as nat),
        Some(h.timestamp_ms),
    ) + spec_sample_line(
        name + "_count"@,
        tags,
        Seq::empty(),
        spec_dec(h.count as nat),
        Some(h.timestamp_ms),
    )
}

/// Render one histogram's whole exposition block.
pub fn encode_histogram(histogram: &PrometheusHistogram) -> (r: String)
    ensures
        r@ == spec_encode_histogram(*histogram),
{
    let desc = &histogram.metric_description;
    let ts: u64 = histogram.timestamp_ms;
    let mut out = String::new();
    if !desc.description.as_str().is_empty() {
        out.append("# HELP ");
        out.append(desc.name.as_str());
        push_char(&mut out, ' ');
        let escaped = escape_string(desc.description.as_str(), false);
        out.append(escaped.as_str());
        push_char(&mut out, '\n');
    }
    out.append("# TYPE ");
    out.append(desc.name.as_str());
    out.append(" histogram\n");
    let ghost header = out@;
    let mut bucket_name = desc.name.clone();
    bucket_name.append("_bucket");
    let mut k: usize = 0;
    proof {
        assert(header + spec_bucket_lines(
            desc.name@,
            pairs_view(desc.tags@),
            histogram.buckets@.take(0),
            ts,
        ) =~= header);
    }
    while k < histogram.buckets.len()
        invariant
            k <= histogram.buckets@.len(),
            bucket_name@ == histogram.metric_description.name@ + "_bucket"@,
            ts == histogram.timestamp_ms,
            out@ == header + spec_bucket_lines(
                histogram.metric_description.name@,
                pairs_view(histogram.metric_description.tags@),
                histogram.buckets@.take(k as int),
                ts,
            ),
        decreases histogram.buckets@.len() - k,
    {
        let bound_text: String = match histogram.buckets[k].upper_bound {
            BucketBound::Finite(b) => nanos_to_dec(b as u128),
            BucketBound::Inf => String::from_str("+Inf"),
        };
        let mut labels: Vec<(String, String)> = Vec::new();
        labels.push((String::from_str("le"), bound_text));
        let value = u128_to_dec(histogram.buckets[k].count as u128);
        write_sample(
            bucket_name.as_str(),
            &histogram.metric_description,
            &labels,
            value.as_str(),
            Some(ts),
            &mut out,
        );
        proof {
            let bs = histogram.buckets@;
            assert(pairs_view(labels@) =~= seq![
                ("le"@, spec_bound_text(bs[k as int].upper_bound)),
            ]);
            assert(bs.take(k + 1).drop_last() =~= bs.take(k as int));
            assert(bs.take(k + 1).last() == bs[k as int]);
            assert(out@ =~= header + spec_bucket_lines(
                histogram.metric_description.name@,
                pairs_view(histogram.metric_description.tags@),
                bs.take(k + 1),
                ts,
            ));
        }
        k += 1;
    }
    proof {
        assert(histogram.buckets@.take(histogram.buckets@.len() as int)
            =~= histogram.buckets@);
    }
    let no_labels: Vec<(String, String)> = Vec::new();
    let mut sum_name = desc.name.clone();
    sum_name.append("_sum");
    let sum_text = nanos_to_dec(histogram.sum);
    write_sample(
        sum_name.as_str(),
        &histogram.metric_description,
        &no_labels,
        sum_text.as_str(),
        Some(ts),
        &mut out,
    );
    let mut count_name = desc.name.clone();
    count_name.append("_count");
    let count_text = u128_to_dec(histogram.count as u128);
    write_sample(
        count_name.as_str(),
        &histogram.metric_description,
        &no_labels,
        count_text.as_str(),
        Some(ts),
        &mut out,
    );
    proof {
        assert(pairs_view(no_labels@) =~= Seq::<(Seq<char>, Seq<char>)>::empty());
        assert(out@ =~= spec_encode_histogram(*histogram));
    }
    out
}

} // verus!
