//! Reading bucket tuples back out of exposition text.
//!
//! The parser walks the block line by line: a line that does not start
//! with `#`, whose text before the first `{` ends in `_bucket`, carries one
//! bucket sample; its `le` bound is the last quoted chunk inside the
//! braces and its count is the first number after them. Encoding a
//! histogram and parsing the result yields exactly the histogram's bucket
//! tuples; that round trip is proved at the end of this module.

use vstd::prelude::*;

use crate::metric::spec_is_metric_name;
use crate::metric::spec_is_tag_name;
use crate::metric::spec_is_tag_value;
use crate::prometheus_encoder::spec_dec;
use crate::prometheus_encoder::spec_digit;
use crate::prometheus_encoder::spec_escape;
use crate::prometheus_encoder::pairs_view;
use crate::prometheus_encoder::spec_bound_text;
use crate::prometheus_encoder::spec_bucket_lines;
use crate::prometheus_encoder::spec_encode_histogram;
use crate::prometheus_encoder::spec_joined_pairs;
use crate::prometheus_encoder::spec_nano_dec as spec_nano_dec_enc;
use crate::prometheus_encoder::spec_sample_line;
use crate::prometheus_histogram::Bucket;
use crate::prometheus_histogram::PrometheusHistogram;
use crate::prometheus_encoder::spec_label_block;
use crate::prometheus_encoder::spec_label_pair;
use crate::prometheus_encoder::spec_fixed_dec;
use crate::prometheus_encoder::spec_nano_dec;
use crate::prometheus_encoder::spec_trim_zeros;

verus! {

/// The index of the first occurrence of `c`, or -1.
pub open spec fn first_index_of(s: Seq<char>, c: char) -> int
    decreases s.len(),
{
    if s.len() == 0 {
        -1
    } else if s[0] == c {
        0
    } else {
        let r = first_index_of(s.drop_first(), c);
        if r == -1 {
            -1
        } else {
            r + 1
        }
    }
}

/// The index of the last occurrence of `c`, or -1.
pub open spec fn last_index_of(s: Seq<char>, c: char) -> int
    decreases s.len(),
{
    if s.len() == 0 {
        -1
    } else if s.last() == c {
        s.len() - 1
    } else {
        last_index_of(s.drop_last(), c)
    }
}

/// Does the character occur in the sequence at all?
pub open spec fn seq_contains_char(s: Seq<char>, c: char) -> bool {
    exists|i: int| 0 <= i < s.len() && s[i] == c
}

proof fn lemma_first_index_of_properties(s: Seq<char>, c: char)
    ensures
        first_index_of(s, c) == -1 ==> !seq_contains_char(s, c),
        first_index_of(s, c) != -1 ==> 0 <= first_index_of(s, c) < s.len() && s[
            first_index_of(s, c)] == c && (forall|k: int|
            0 <= k < first_index_of(s, c) ==> s[k] != c),
    decreases s.len(),
{
    if s.len() > 0 && s[0] != c {
        lemma_first_index_of_properties(s.drop_first(), c);
        let r = first_index_of(s.drop_first(), c);
        if r == -1 {
            assert forall|i: int| 0 <= i < s.len() implies s[i] != c by {
                if i > 0 {
                    assert(s.drop_first()[i - 1] == s[i]);
                    assert(!seq_contains_char(s.drop_first(), c));
                }
            }
        } else {
            assert(s[r + 1] == s.drop_first()[r]);
            assert forall|k: int| 0 <= k < r + 1 implies s[k] != c by {
                if k > 0 {
                    assert(s.drop_first()[k - 1] == s[k]);
                }
            }
        }
    }
}

/// When `a` is free of `c`, the first `c` of `a + [c] + b` sits right
/// after `a`, so splitting there recovers `a` and `b`.
proof fn lemma_split_first(a: Seq<char>, c: char, b: Seq<char>)
    requires
        !seq_contains_char(a, c),
    ensures
        first_index_of(a + seq![c] + b, c) == a.len(),
        (a + seq![c] + b).take(a.len() as int) == a,
        (a + seq![c] + b).skip(a.len() as int + 1) == b,
    decreases a.len(),
{
    let s = a + seq![c] + b;
    if a.len() == 0 {
        assert(s[0] == c);
    } else {
        assert(a[0] != c) by {
            assert(seq_contains_char(a, c) == seq_contains_char(a, c));
            if a[0] == c {
                assert(seq_contains_char(a, c));
            }
        }
        assert(s[0] == a[0]);
        assert(!seq_contains_char(a.drop_first(), c)) by {
            if seq_contains_char(a.drop_first(), c) {
                let i = choose|i: int|
                    0 <= i < a.drop_first().len() && a.drop_first()[i] == c;
                assert(a[i + 1] == c);
                assert(seq_contains_char(a, c));
            }
        }
        lemma_split_first(a.drop_first(), c, b);
        assert(s.drop_first() =~= a.drop_first() + seq![c] + b);
    }
    assert(s.take(a.len() as int) =~= a);
    assert(s.skip(a.len() as int + 1) =~= b);
}

/// When `b` is free of `c`, the last `c` of `a + [c] + b` sits right
/// after `a`, so splitting there recovers `a` and `b`.
proof fn lemma_split_last(a: Seq<char>, c: char, b: Seq<char>)
    requires
        !seq_contains_char(b, c),
    ensures
        last_index_of(a + seq![c] + b, c) == a.len(),
        (a + seq![c] + b).take(a.len() as int) == a,
        (a + seq![c] + b).skip(a.len() as int + 1) == b,
    decreases b.len(),
{
    let s = a + seq![c] + b;
    if b.len() == 0 {
        assert(s.last() == c);
        assert(s.len() - 1 == a.len());
    } else {
        assert(b.last() != c) by {
            if b.last() == c {
                assert(seq_contains_char(b, c));
            }
        }
        assert(s.last() == b.last());
        assert(!seq_contains_char(b.drop_last(), c)) by {
            if seq_contains_char(b.drop_last(), c) {
                let i = choose|i: int|
                    0 <= i < b.drop_last().len() && b.drop_last()[i] == c;
                assert(b[i] == c);
                assert(seq_contains_char(b, c));
            }
        }
        lemma_split_last(a, c, b.drop_last());
        assert(s.drop_last() =~= a + seq![c] + b.drop_last());
    }
    assert(s.take(a.len() as int) =~= a);
    assert(s.skip(a.len() as int + 1) =~= b);
}

/// Is every character a decimal digit?
pub open spec fn spec_all_digits(s: Seq<char>) -> bool {
    forall|i: int| 0 <= i < s.len() ==> 48 <= (#[trigger] s[i]) as int <= 57
}

/// The number a digit string denotes.
pub open spec fn spec_parse_dec(s: Seq<char>) -> int
    decreases s.len(),
{
    if s.len() == 0 {
        0
    } else {
        spec_parse_dec(s.drop_last()) * 10 + (s.last() as int - 48)
    }
}

/// Decimal rendering produces digit characters only.
proof fn lemma_dec_all_digits(n: nat)
    ensures
        spec_all_digits(spec_dec(n)),
        spec_dec(n).len() >= 1,
    decreases n,
{
    if n < 10 {
        assert(spec_dec(n) =~= seq![spec_digit(n as int)]);
        lemma_digit_value(n as int);
    } else {
        lemma_dec_all_digits(n / 10);
        let s = spec_dec(n);
        assert(s == spec_dec(n / 10).push(spec_digit((n % 10) as int)));
        assert(spec_digit((n % 10) as int) as int == 48 + (n % 10) as int) by {
            lemma_digit_value((n % 10) as int);
        }
        assert forall|i: int| 0 <= i < s.len() implies 48 <= (#[trigger] s[i]) as int
            <= 57 by {
            if i < s.len() - 1 {
                assert(s[i] == spec_dec(n / 10)[i]);
            }
        }
    }
}

/// A digit character carries its value.
proof fn lemma_digit_value(d: int)
    requires
        0 <= d <= 9,
    ensures
        spec_digit(d) as int == 48 + d,
{
    assert(spec_digit(d) as int == ((48 + d) as u8) as char as int);
    assert(((48 + d) as u8) as int == 48 + d);
}

/// Parsing inverts decimal rendering.
proof fn lemma_parse_dec_round_trip(n: nat)
    ensures
        spec_parse_dec(spec_dec(n)) == n,
    decreases n,
{
    if n < 10 {
        let s1 = seq![spec_digit(n as int)];
        assert(spec_dec(n) =~= s1);
        lemma_digit_value(n as int);
        assert(s1.drop_last() =~= Seq::<char>::empty());
        assert(spec_parse_dec(s1.drop_last()) == 0);
        assert(spec_parse_dec(s1) == 0 * 10 + (s1.last() as int - 48));
        assert(s1.last() == spec_digit(n as int));
    } else {
        lemma_parse_dec_round_trip(n / 10);
        let s = spec_dec(n);
        assert(s == spec_dec(n / 10).push(spec_digit((n % 10) as int)));
        assert(s.drop_last() =~= spec_dec(n / 10));
        assert(spec_parse_dec(s.drop_last()) == spec_parse_dec(spec_dec(n / 10)));
        assert(s.last() == spec_digit((n % 10) as int));
        lemma_digit_value((n % 10) as int);
        assert(spec_parse_dec(s) == (n / 10) * 10 + (n % 10));
    }
}

/// Characters a metric name can hold exclude the format's structure.
proof fn lemma_name_free_of(s: Seq<char>, c: char)
    requires
        spec_is_metric_name(s),
        c as int == 10 || c as int == 32 || c as int == 34 || c as int == 35 || c as int
            == 123 || c as int == 125,
    ensures
        !seq_contains_char(s, c),
{
    assert forall|i: int| 0 <= i < s.len() implies s[i] != c by {
        assert(crate::metric::spec_is_metric_name_char(s[i]));
    }
}

/// Characters a tag name can hold exclude the format's structure.
proof fn lemma_tag_name_free_of(s: Seq<char>, c: char)
    requires
        spec_is_tag_name(s),
        c as int == 10 || c as int == 32 || c as int == 34 || c as int == 92 || c as int
            == 123 || c as int == 125,
    ensures
        !seq_contains_char(s, c),
{
    assert forall|i: int| 0 <= i < s.len() implies s[i] != c by {
        assert(crate::metric::spec_is_tag_name_char(s[i]));
    }
}

/// Characters a tag value can hold exclude the format's structure.
proof fn lemma_tag_value_free_of(s: Seq<char>, c: char)
    requires
        spec_is_tag_value(s),
        c as int == 10 || c as int == 32 || c as int == 34 || c as int == 92 || c as int
            == 123 || c as int == 125,
    ensures
        !seq_contains_char(s, c),
{
    assert forall|i: int| 0 <= i < s.len() implies s[i] != c by {
        assert(crate::metric::spec_is_tag_value_char(s[i]));
    }
}

/// Escaping text that holds no backslash, newline or quote is the
/// identity.
proof fn lemma_escape_identity(s: Seq<char>)
    requires
        !seq_contains_char(s, '\\'),
        !seq_contains_char(s, '\n'),
        !seq_contains_char(s, '"'),
    ensures
        spec_escape(s, true) == s,
    decreases s.len(),
{
    if s.len() == 0 {
        assert(spec_escape(s, true) =~= s);
    } else {
        assert(!seq_contains_char(s.drop_last(), '\\') && !seq_contains_char(
            s.drop_last(),
            '\n',
        ) && !seq_contains_char(s.drop_last(), '"')) by {
            assert(forall|i: int|
                0 <= i < s.drop_last().len() ==> #[trigger] s.drop_last()[i] == s[i]);
        }
        assert(s.last() != '\\' && s.last() != '\n' && s.last() != '"') by {
            assert(s[s.len() - 1] == s.last());
        }
        lemma_escape_identity(s.drop_last());
        assert(spec_escape(s, true) =~= s.drop_last() + seq![s.last()]);
        assert(s.drop_last() + seq![s.last()] =~= s);
    }
}

/// Digit strings hold no structural characters.
proof fn lemma_digits_free_of(s: Seq<char>, c: char)
    requires
        spec_all_digits(s),
        (c as int) < 48 || (c as int) > 57,
    ensures
        !seq_contains_char(s, c),
{
    assert forall|i: int| 0 <= i < s.len() implies s[i] != c by {
        assert(48 <= s[i] as int <= 57);
    }
}

/// The fixed-width digits are digits.
proof fn lemma_fixed_dec_all_digits(n: nat, w: nat)
    ensures
        spec_all_digits(spec_fixed_dec(n, w)),
    decreases w,
{
    if w > 0 {
        lemma_fixed_dec_all_digits(n / 10, (w - 1) as nat);
        let s = spec_fixed_dec(n, w);
        lemma_digit_value((n % 10) as int);
        assert forall|i: int| 0 <= i < s.len() implies 48 <= (#[trigger] s[i]) as int
            <= 57 by {
            if i < s.len() - 1 {
                assert(s[i] == spec_fixed_dec(n / 10, (w - 1) as nat)[i]);
            }
        }
    }
}

/// Trimming keeps a prefix, so it keeps the character classes.
proof fn lemma_trim_zeros_prefix(s: Seq<char>)
    ensures
        spec_trim_zeros(s).len() <= s.len(),
        forall|i: int|
            0 <= i < spec_trim_zeros(s).len() ==> #[trigger] spec_trim_zeros(s)[i] == s[i],
    decreases s.len(),
{
    if s.len() > 0 && s.last() == '0' {
        lemma_trim_zeros_prefix(s.drop_last());
        assert(forall|i: int|
            0 <= i < s.drop_last().len() ==> #[trigger] s.drop_last()[i] == s[i]);
    }
}

/// The canonical decimal rendering holds only digits and at most a point;
/// in particular none of the format's structural characters.
proof fn lemma_nano_dec_free_of(v: nat, c: char)
    requires
        c as int == 10 || c as int == 32 || c as int == 34 || c as int == 92 || c as int
            == 123 || c as int == 125,
    ensures
        !seq_contains_char(spec_nano_dec(v), c),
{
    let whole = v / 1_000_000_000;
    let frac = v % 1_000_000_000;
    lemma_dec_all_digits(whole);
    if frac == 0 {
        lemma_digits_free_of(spec_dec(whole), c);
    } else {
        let s = spec_nano_dec(v);
        let trimmed = spec_trim_zeros(spec_fixed_dec(frac, 9));
        lemma_fixed_dec_all_digits(frac, 9);
        lemma_trim_zeros_prefix(spec_fixed_dec(frac, 9));
        assert forall|i: int| 0 <= i < s.len() implies s[i] != c by {
            if i < spec_dec(whole).len() {
                assert(s[i] == spec_dec(whole).push('.')[i]);
                assert(spec_dec(whole).push('.')[i] == spec_dec(whole)[i]);
                assert(48 <= s[i] as int <= 57);
            } else if i == spec_dec(whole).len() {
                assert(s[i] == spec_dec(whole).push('.')[i]);
                assert(s[i] == '.');
                assert(('.') as int == 46);
            } else {
                assert(s[i] == trimmed[i - spec_dec(whole).len() - 1]);
                assert(48 <= s[i] as int <= 57);
            }
        }
    }
}


/// No occurrence in either part, no occurrence in the whole.
proof fn lemma_concat_free(a: Seq<char>, b: Seq<char>, c: char)
    requires
        !seq_contains_char(a, c),
        !seq_contains_char(b, c),
    ensures
        !seq_contains_char(a + b, c),
{
    assert forall|i: int| 0 <= i < (a + b).len() implies (a + b)[i] != c by {
        if i < a.len() {
            assert((a + b)[i] == a[i]);
        } else {
            assert((a + b)[i] == b[i - a.len()]);
        }
    }
}

/// A single character distinct from `c` is free of it.
proof fn lemma_single_free(x: char, c: char)
    requires
        x != c,
    ensures
        !seq_contains_char(seq![x], c),
{
    assert forall|i: int| 0 <= i < 1 implies seq![x][i] != c by {
        assert(seq![x][i] == x);
    }
}

/// One parsed bucket sample line: the `le` bound text and the count.
pub open spec fn spec_parse_bucket_line(line: Seq<char>) -> Option<(Seq<char>, int)> {
    if line.len() == 0 || line[0] == '#' {
        Option::None
    } else {
        let bi = first_index_of(line, '{');
        if bi < 0 {
            Option::None
        } else {
            let head = line.take(bi);
            if head.len() < 7 || head.skip(head.len() - 7) != "_bucket"@ {
                Option::None
            } else {
                let rest = line.skip(bi + 1);
                let ci = first_index_of(rest, '}');
                if ci < 0 {
                    Option::None
                } else {
                    let inner = rest.take(ci);
                    let tail = rest.skip(ci + 1);
                    if inner.len() == 0 || inner.last() != '"' {
                        Option::None
                    } else {
                        let inner2 = inner.drop_last();
                        let qi = last_index_of(inner2, '"');
                        if qi < 0 || tail.len() == 0 || tail[0] != ' ' {
                            Option::None
                        } else {
                            let bound = inner2.skip(qi + 1);
                            let rest2 = tail.drop_first();
                            let si = first_index_of(rest2, ' ');
                            if si < 0 {
                                Option::None
                            } else {
                                let cnt = rest2.take(si);
                                if cnt.len() == 0 || !spec_all_digits(cnt) {
                                    Option::None
                                } else {
                                    Option::Some((bound, spec_parse_dec(cnt)))
                                }
                            }
                        }
                    }
                }
            }
        }
    }
}

/// The tuple a line contributes: one for a bucket sample line, none
/// otherwise.
pub open spec fn spec_line_tuples(line: Seq<char>) -> Seq<(Seq<char>, int)> {
    match spec_parse_bucket_line(line) {
        Option::Some(t) => seq![t],
        Option::None => Seq::empty(),
    }
}

/// All bucket tuples of an exposition text, line by line.
pub open spec fn spec_parse_bucket_tuples(s: Seq<char>) -> Seq<(Seq<char>, int)>
    decreases s.len(),
{
    if s.len() == 0 {
        Seq::empty()
    } else {
        let ni = first_index_of(s, '\n');
        if 0 <= ni < s.len() {
            spec_line_tuples(s.take(ni)) + spec_parse_bucket_tuples(s.skip(ni + 1))
        } else {
            spec_line_tuples(s)
        }
    }
}

/// Peeling one newline-terminated line off the front of the text.
proof fn lemma_parse_tuples_step(body: Seq<char>, rest: Seq<char>)
    requires
        !seq_contains_char(body, '\n'),
    ensures
        spec_parse_bucket_tuples(body + seq!['\n'] + rest) == spec_line_tuples(body)
            + spec_parse_bucket_tuples(rest),
{
    let s = body + seq!['\n'] + rest;
    lemma_split_first(body, '\n', rest);
    assert(s.len() > 0);
    assert(first_index_of(s, '\n') == body.len());
    assert(s.take(body.len() as int) == body);
    assert(s.skip(body.len() as int + 1) == rest);
}


/// One rendered label pair stays free of characters that neither side can
/// hold.
proof fn lemma_label_pair_free(p: (Seq<char>, Seq<char>), c: char)
    requires
        c != '=',
        c != '"',
        !seq_contains_char(p.0, c),
        !seq_contains_char(spec_escape(p.1, true), c),
    ensures
        !seq_contains_char(spec_label_pair(p), c),
{
    lemma_single_free('=', c);
    lemma_single_free('"', c);
    assert(seq!['=', '"'] =~= seq!['='] + seq!['"']);
    lemma_concat_free(seq!['='], seq!['"'], c);
    lemma_concat_free(p.0, seq!['=', '"'], c);
    lemma_concat_free(p.0 + seq!['=', '"'], spec_escape(p.1, true), c);
    lemma_concat_free(p.0 + seq!['=', '"'] + spec_escape(p.1, true), seq!['"'], c);
}

/// The joined pairs stay free of characters that no pair can hold.
proof fn lemma_joined_pairs_free(pairs: Seq<(Seq<char>, Seq<char>)>, c: char)
    requires
        c != '=',
        c != '"',
        c != ',',
        forall|i: int|
            0 <= i < pairs.len() ==> !seq_contains_char((#[trigger] pairs[i]).0, c)
                && !seq_contains_char(spec_escape(pairs[i].1, true), c),
    ensures
        !seq_contains_char(spec_joined_pairs(pairs), c),
    decreases pairs.len(),
{
    if pairs.len() == 0 {
        assert forall|i: int|
            0 <= i < spec_joined_pairs(pairs).len() implies spec_joined_pairs(pairs)[i]
            != c by {}
    } else if pairs.len() == 1 {
        lemma_label_pair_free(pairs[0], c);
    } else {
        assert forall|i: int|
            0 <= i < pairs.drop_last().len() implies !seq_contains_char(
            (#[trigger] pairs.drop_last()[i]).0,
            c,
        ) && !seq_contains_char(spec_escape(pairs.drop_last()[i].1, true), c) by {
            assert(pairs.drop_last()[i] == pairs[i]);
        }
        lemma_joined_pairs_free(pairs.drop_last(), c);
        lemma_label_pair_free(pairs.last(), c);
        lemma_single_free(',', c);
        lemma_concat_free(spec_joined_pairs(pairs.drop_last()), seq![','], c);
        lemma_concat_free(
            spec_joined_pairs(pairs.drop_last()) + seq![','],
            spec_label_pair(pairs.last()),
            c,
        );
    }
}

/// A sample line's content before its newline terminator.
pub open spec fn spec_line_body(
    name: Seq<char>,
    pairs: Seq<(Seq<char>, Seq<char>)>,
    value: Seq<char>,
    ts: nat,
) -> Seq<char> {
    name + spec_label_block(pairs) + seq![' '] + value + seq![' '] + spec_dec(ts)
}

/// A bucket sample line parses back to exactly its bound text and count.
#[verifier::rlimit(100)]
proof fn lemma_bucket_line_parses(
    name: Seq<char>,
    tag_pairs: Seq<(Seq<char>, Seq<char>)>,
    bound: Seq<char>,
    count: nat,
    ts: nat,
)
    requires
        spec_is_metric_name(name),
        forall|i: int|
            0 <= i < tag_pairs.len() ==> spec_is_tag_name((#[trigger] tag_pairs[i]).0)
                && spec_is_tag_value(tag_pairs[i].1),
        !seq_contains_char(bound, '"'),
        !seq_contains_char(bound, '{'),
        !seq_contains_char(bound, '}'),
        !seq_contains_char(bound, '\\'),
        !seq_contains_char(bound, '\n'),
    ensures
        spec_parse_bucket_line(
            spec_line_body(
                name + "_bucket"@,
                tag_pairs + seq![("le"@, bound)],
                spec_dec(count),
                ts,
            ),
        ) == Option::Some((bound, count as int)),
{
    reveal_strlit("_bucket");
    reveal_strlit("le");
    let allp = tag_pairs + seq![("le"@, bound)];
    let le_pair = ("le"@, bound);
    let nameb = name + "_bucket"@;
    let jj = spec_joined_pairs(allp);
    let vv = spec_dec(count);
    let tt = spec_dec(ts);
    let line = spec_line_body(nameb, allp, vv, ts);
    assert(allp.len() >= 1);
    assert(spec_label_block(allp) == seq!['{'] + jj + seq!['}']);

    // Tag pairs render without structural characters; the le value is its
    // own escape.
    lemma_escape_identity(bound);
    assert(spec_escape(le_pair.1, true) == bound);
    assert forall|i: int|
        0 <= i < allp.len() implies !seq_contains_char((#[trigger] allp[i]).0, '}')
        && !seq_contains_char(spec_escape(allp[i].1, true), '}') by {
        if i < tag_pairs.len() {
            assert(allp[i] == tag_pairs[i]);
            lemma_tag_name_free_of(tag_pairs[i].0, '}');
            lemma_tag_value_free_of(tag_pairs[i].1, '\\');
            lemma_tag_value_free_of(tag_pairs[i].1, '\n');
            lemma_tag_value_free_of(tag_pairs[i].1, '"');
            lemma_escape_identity(tag_pairs[i].1);
            lemma_tag_value_free_of(tag_pairs[i].1, '}');
        } else {
            assert(allp[i] == le_pair);
            assert forall|k: int| 0 <= k < ("le"@).len() implies ("le"@)[k] != '}' by {}
        }
    }
    lemma_joined_pairs_free(allp, '}');

    // The name and the suffix hold no brace, so the first brace opens the
    // label block.
    assert(line[0] == name[0]) by {
        assert(name.len() > 0);
        assert(nameb[0] == name[0]);
    }
    assert(line[0] != '#') by {
        assert(crate::metric::spec_is_metric_name_start(name[0]));
    }
    lemma_name_free_of(name, '{');
    assert(!seq_contains_char("_bucket"@, '{')) by {
        assert forall|k: int| 0 <= k < ("_bucket"@).len() implies ("_bucket"@)[k] != '{'
            by {}
    }
    lemma_concat_free(name, "_bucket"@, '{');
    let b1 = jj + seq!['}'] + seq![' '] + vv + seq![' '] + tt;
    assert(line =~= nameb + seq!['{'] + b1);
    lemma_split_first(nameb, '{', b1);
    assert(first_index_of(line, '{') == nameb.len());
    let head = line.take(nameb.len() as int);
    assert(head == nameb);
    assert(head.len() >= 7);
    assert(head.skip(head.len() - 7) =~= "_bucket"@);
    let rest = line.skip(nameb.len() as int + 1);
    assert(rest == b1);

    // The joined pairs hold no closing brace, so the first one ends them.
    let b2 = seq![' '] + vv + seq![' '] + tt;
    assert(rest =~= jj + seq!['}'] + b2);
    lemma_split_first(jj, '}', b2);
    assert(first_index_of(rest, '}') == jj.len());
    let inner = rest.take(jj.len() as int);
    assert(inner == jj);
    let tail = rest.skip(jj.len() as int + 1);
    assert(tail == b2);

    // The joined pairs end with the le value's closing quote.
    assert(spec_label_pair(le_pair) =~= "le"@ + seq!['=', '"'] + bound + seq!['"']);
    let p0 = if tag_pairs.len() == 0 {
        "le"@ + seq!['=']
    } else {
        spec_joined_pairs(tag_pairs) + seq![','] + "le"@ + seq!['=']
    };
    assert(jj =~= p0 + seq!['"'] + bound + seq!['"']) by {
        if tag_pairs.len() == 0 {
            assert(allp.len() == 1);
            assert(allp[0] == le_pair);
            assert(jj == spec_label_pair(le_pair));
        } else {
            assert(allp.drop_last() =~= tag_pairs);
            assert(allp.last() == le_pair);
            assert(jj == spec_joined_pairs(tag_pairs) + seq![','] + spec_label_pair(
                le_pair,
            ));
        }
    }
    assert(inner.len() > 0);
    assert(inner.last() == '"') by {
        assert(jj[jj.len() - 1] == '"');
    }
    let inner2 = inner.drop_last();
    assert(inner2 =~= p0 + seq!['"'] + bound);
    lemma_split_last(p0, '"', bound);
    assert(last_index_of(inner2, '"') == p0.len());
    assert(inner2.skip(p0.len() as int + 1) == bound);

    // After the brace: a space, the count digits, a space, the timestamp.
    assert(tail[0] == ' ');
    let rest2 = tail.drop_first();
    assert(rest2 =~= vv + seq![' '] + tt);
    lemma_dec_all_digits(count);
    lemma_digits_free_of(vv, ' ');
    lemma_split_first(vv, ' ', tt);
    assert(first_index_of(rest2, ' ') == vv.len());
    assert(rest2.take(vv.len() as int) == vv);
    assert(vv.len() > 0);
    lemma_parse_dec_round_trip(count);
}


/// Escaped text never holds a newline.
proof fn lemma_escape_no_newline(s: Seq<char>, q: bool)
    ensures
        !seq_contains_char(spec_escape(s, q), '\n'),
    decreases s.len(),
{
    if s.len() == 0 {
        assert forall|i: int|
            0 <= i < spec_escape(s, q).len() implies spec_escape(s, q)[i] != '\n' by {}
    } else {
        lemma_escape_no_newline(s.drop_last(), q);
        let e = spec_escape(s, q);
        let head = spec_escape(s.drop_last(), q);
        let ch = crate::prometheus_encoder::spec_escape_char(s.last(), q);
        assert(e == head + ch);
        assert(!seq_contains_char(ch, '\n')) by {
            assert forall|i: int| 0 <= i < ch.len() implies ch[i] != '\n' by {}
        }
        lemma_concat_free(head, ch, '\n');
    }
}

/// A bound's rendering holds none of the format's structure.
proof fn lemma_bound_text_free(bound: crate::prometheus_histogram::BucketBound, c: char)
    requires
        c as int == 10 || c as int == 34 || c as int == 92 || c as int == 123 || c as int
            == 125,
    ensures
        !seq_contains_char(crate::prometheus_encoder::spec_bound_text(bound), c),
{
    reveal_strlit("+Inf");
    match bound {
        crate::prometheus_histogram::BucketBound::Finite(v) => {
            lemma_nano_dec_free_of(v as nat, c);
        },
        crate::prometheus_histogram::BucketBound::Inf => {
            let s = "+Inf"@;
            assert forall|i: int| 0 <= i < s.len() implies s[i] != c by {}
        },
    }
}

/// A `_sum` or `_count` sample line carries no bucket tuple.
#[verifier::rlimit(100)]
proof fn lemma_other_line_skipped(
    name: Seq<char>,
    tag_pairs: Seq<(Seq<char>, Seq<char>)>,
    suffix: Seq<char>,
    value: Seq<char>,
    ts: nat,
)
    requires
        spec_is_metric_name(name),
        forall|i: int|
            0 <= i < tag_pairs.len() ==> spec_is_tag_name((#[trigger] tag_pairs[i]).0)
                && spec_is_tag_value(tag_pairs[i].1),
        suffix.len() >= 2,
        suffix.last() != 't' || suffix[suffix.len() - 2] != 'e',
        !seq_contains_char(suffix, '{'),
        !seq_contains_char(value, '{'),
    ensures
        spec_parse_bucket_line(spec_line_body(name + suffix, tag_pairs, value, ts))
            == Option::None::<(Seq<char>, int)>,
{
    reveal_strlit("_bucket");
    let head0 = name + suffix;
    let line = spec_line_body(head0, tag_pairs, value, ts);
    lemma_name_free_of(name, '{');
    lemma_concat_free(name, suffix, '{');
    if tag_pairs.len() == 0 {
        assert(spec_label_block(tag_pairs) =~= Seq::<char>::empty());
        assert(line =~= head0 + seq![' '] + value + seq![' '] + spec_dec(ts));
        lemma_single_free(' ', '{');
        lemma_dec_all_digits(ts);
        lemma_digits_free_of(spec_dec(ts), '{');
        lemma_concat_free(head0, seq![' '], '{');
        lemma_concat_free(head0 + seq![' '], value, '{');
        lemma_concat_free(head0 + seq![' '] + value, seq![' '], '{');
        lemma_concat_free(head0 + seq![' '] + value + seq![' '], spec_dec(ts), '{');
        lemma_first_index_of_properties(line, '{');
        if first_index_of(line, '{') != -1 {
            assert(seq_contains_char(line, '{'));
        }
        assert(first_index_of(line, '{') == -1);
    } else {
        let jj = spec_joined_pairs(tag_pairs);
        assert(spec_label_block(tag_pairs) == seq!['{'] + jj + seq!['}']);
        let b1 = jj + seq!['}'] + seq![' '] + value + seq![' '] + spec_dec(ts);
        assert(line =~= head0 + seq!['{'] + b1);
        lemma_split_first(head0, '{', b1);
        assert(first_index_of(line, '{') == head0.len());
        let head = line.take(head0.len() as int);
        assert(head == head0);
        if head.len() >= 7 {
            let tail7 = head.skip(head.len() - 7);
            assert(tail7.len() == 7);
            assert(tail7[6] == head[head.len() - 1]);
            assert(tail7[5] == head[head.len() - 2]);
            assert(head[head.len() - 1] == suffix.last()) by {
                assert(suffix.len() >= 1);
            }
            assert(head[head.len() - 2] == suffix[suffix.len() - 2]);
            assert(("_bucket"@)[6] == 't' && ("_bucket"@)[5] == 'e');
            assert(tail7 != "_bucket"@) by {
                if tail7 == "_bucket"@ {
                    assert(tail7[6] == 't' && tail7[5] == 'e');
                }
            }
        }
    }
}

/// The bucket lines, read off the front instead of the back.
proof fn lemma_bucket_lines_front(
    name: Seq<char>,
    tags: Seq<(Seq<char>, Seq<char>)>,
    buckets: Seq<crate::prometheus_histogram::Bucket>,
    ts: u64,
)
    requires
        buckets.len() > 0,
    ensures
        crate::prometheus_encoder::spec_bucket_lines(name, tags, buckets, ts)
            == crate::prometheus_encoder::spec_sample_line(
            name + "_bucket"@,
            tags,
            seq![
                ("le"@, crate::prometheus_encoder::spec_bound_text(buckets[0].upper_bound)),
            ],
            spec_dec(buckets[0].count as nat),
            Some(ts),
        ) + crate::prometheus_encoder::spec_bucket_lines(
            name,
            tags,
            buckets.drop_first(),
            ts,
        ),
    decreases buckets.len(),
{
    let line0 = crate::prometheus_encoder::spec_sample_line(
        name + "_bucket"@,
        tags,
        seq![("le"@, crate::prometheus_encoder::spec_bound_text(buckets[0].upper_bound))],
        spec_dec(buckets[0].count as nat),
        Some(ts),
    );
    if buckets.len() == 1 {
        assert(buckets.drop_last() =~= Seq::<crate::prometheus_histogram::Bucket>::empty());
        assert(buckets.drop_first() =~= Seq::<
            crate::prometheus_histogram::Bucket,
        >::empty());
        assert(buckets.last() == buckets[0]);
        assert(crate::prometheus_encoder::spec_bucket_lines(name, tags, buckets, ts)
            == crate::prometheus_encoder::spec_bucket_lines(
            name,
            tags,
            buckets.drop_last(),
            ts,
        ) + crate::prometheus_encoder::spec_sample_line(
            name + "_bucket"@,
            tags,
            seq![
                ("le"@, crate::prometheus_encoder::spec_bound_text(
                    buckets.last().upper_bound,
                )),
            ],
            spec_dec(buckets.last().count as nat),
            Some(ts),
        ));
        assert(crate::prometheus_encoder::spec_bucket_lines(
            name,
            tags,
            buckets.drop_last(),
            ts,
        ) =~= Seq::<char>::empty());
        assert(crate::prometheus_encoder::spec_bucket_lines(name, tags, buckets, ts)
            =~= line0);
        assert(crate::prometheus_encoder::spec_bucket_lines(
            name,
            tags,
            buckets.drop_first(),
            ts,
        ) =~= Seq::<char>::empty());
        assert(line0 + crate::prometheus_encoder::spec_bucket_lines(
            name,
            tags,
            buckets.drop_first(),
            ts,
        ) =~= line0);
    } else {
        lemma_bucket_lines_front(name, tags, buckets.drop_last(), ts);
        assert(buckets.drop_last()[0] == buckets[0]);
        assert(buckets.drop_last().drop_first() =~= buckets.drop_first().drop_last());
        assert(buckets.drop_first().last() == buckets.last());
        assert(buckets.drop_first().len() > 0);
        assert(crate::prometheus_encoder::spec_bucket_lines(
            name,
            tags,
            buckets.drop_first(),
            ts,
        ) == crate::prometheus_encoder::spec_bucket_lines(
            name,
            tags,
            buckets.drop_first().drop_last(),
            ts,
        ) + crate::prometheus_encoder::spec_sample_line(
            name + "_bucket"@,
            tags,
            seq![
                ("le"@, crate::prometheus_encoder::spec_bound_text(
                    buckets.last().upper_bound,
                )),
            ],
            spec_dec(buckets.last().count as nat),
            Some(ts),
        ));
        assert(crate::prometheus_encoder::spec_bucket_lines(name, tags, buckets, ts)
            =~= line0 + crate::prometheus_encoder::spec_bucket_lines(
            name,
            tags,
            buckets.drop_first(),
            ts,
        ));
    }
}


/// The tuples a histogram's buckets denote: each bound's rendering with
/// its cumulative count, in bucket order.
pub open spec fn spec_bucket_tuples_of(buckets: Seq<Bucket>) -> Seq<(Seq<char>, int)> {
    buckets.map_values(|b: Bucket| (spec_bound_text(b.upper_bound), b.count as int))
}

/// One bucket line body holds no newline.
proof fn lemma_bucket_body_no_newline(
    name: Seq<char>,
    tags: Seq<(Seq<char>, Seq<char>)>,
    extra: Seq<(Seq<char>, Seq<char>)>,
    value: Seq<char>,
    ts: nat,
)
    requires
        spec_is_metric_name(name),
        !seq_contains_char(value, '\n'),
        forall|i: int|
            0 <= i < tags.len() ==> spec_is_tag_name((#[trigger] tags[i]).0)
                && spec_is_tag_value(tags[i].1),
        forall|i: int|
            0 <= i < extra.len() ==> !seq_contains_char((#[trigger] extra[i]).0, '\n'),
        !seq_contains_char(name, '\n'),
    ensures
        !seq_contains_char(spec_line_body(name, tags + extra, value, ts), '\n'),
{
    let allp = tags + extra;
    assert forall|i: int|
        0 <= i < allp.len() implies !seq_contains_char((#[trigger] allp[i]).0, '\n')
        && !seq_contains_char(spec_escape(allp[i].1, true), '\n') by {
        if i < tags.len() {
            assert(allp[i] == tags[i]);
            lemma_tag_name_free_of(tags[i].0, '\n');
            lemma_escape_no_newline(tags[i].1, true);
        } else {
            assert(allp[i] == extra[i - tags.len()]);
            lemma_escape_no_newline(allp[i].1, true);
        }
    }
    lemma_joined_pairs_free(allp, '\n');
    let block = spec_label_block(allp);
    assert(!seq_contains_char(block, '\n')) by {
        if allp.len() == 0 {
            assert forall|i: int| 0 <= i < block.len() implies block[i] != '\n' by {}
        } else {
            lemma_single_free('{', '\n');
            lemma_single_free('}', '\n');
            lemma_concat_free(seq!['{'], spec_joined_pairs(allp), '\n');
            lemma_concat_free(seq!['{'] + spec_joined_pairs(allp), seq!['}'], '\n');
        }
    }
    lemma_dec_all_digits(ts);
    lemma_digits_free_of(spec_dec(ts), '\n');
    lemma_single_free(' ', '\n');
    lemma_concat_free(name, block, '\n');
    lemma_concat_free(name + block, seq![' '], '\n');
    lemma_concat_free(name + block + seq![' '], value, '\n');
    lemma_concat_free(name + block + seq![' '] + value, seq![' '], '\n');
    lemma_concat_free(
        name + block + seq![' '] + value + seq![' '],
        spec_dec(ts),
        '\n',
    );
}

/// Parsing the bucket lines followed by any trailer yields the buckets'
/// tuples followed by whatever the trailer yields.
proof fn lemma_parse_bucket_lines(
    name: Seq<char>,
    tags: Seq<(Seq<char>, Seq<char>)>,
    buckets: Seq<Bucket>,
    ts: u64,
    trailer: Seq<char>,
)
    requires
        spec_is_metric_name(name),
        forall|i: int|
            0 <= i < tags.len() ==> spec_is_tag_name((#[trigger] tags[i]).0)
                && spec_is_tag_value(tags[i].1),
    ensures
        spec_parse_bucket_tuples(spec_bucket_lines(name, tags, buckets, ts) + trailer)
            == spec_bucket_tuples_of(buckets) + spec_parse_bucket_tuples(trailer),
    decreases buckets.len(),
{
    reveal_strlit("_bucket");
    reveal_strlit("le");
    if buckets.len() == 0 {
        assert(spec_bucket_lines(name, tags, buckets, ts) =~= Seq::<char>::empty());
        assert(spec_bucket_lines(name, tags, buckets, ts) + trailer =~= trailer);
        assert(spec_bucket_tuples_of(buckets) =~= Seq::<(Seq<char>, int)>::empty());
        assert(spec_bucket_tuples_of(buckets) + spec_parse_bucket_tuples(trailer)
            =~= spec_parse_bucket_tuples(trailer));
    } else {
        lemma_bucket_lines_front(name, tags, buckets, ts);
        let b0 = buckets[0];
        let bound0 = spec_bound_text(b0.upper_bound);
        let le_extra = seq![("le"@, bound0)];
        let line0 = spec_sample_line(
            name + "_bucket"@,
            tags,
            le_extra,
            spec_dec(b0.count as nat),
            Some(ts),
        );
        let body0 = spec_line_body(
            name + "_bucket"@,
            tags + le_extra,
            spec_dec(b0.count as nat),
            ts as nat,
        );
        assert(line0 =~= body0 + seq!['\n']);
        assert(!seq_contains_char(body0, '\n')) by {
            lemma_name_free_of(name, '\n');
            assert(!seq_contains_char("_bucket"@, '\n')) by {
                assert forall|k: int|
                    0 <= k < ("_bucket"@).len() implies ("_bucket"@)[k] != '\n' by {}
            }
            lemma_concat_free(name, "_bucket"@, '\n');
            assert(spec_is_metric_name(name + "_bucket"@)) by {
                assert((name + "_bucket"@)[0] == name[0]);
                assert forall|k: int|
                    0 <= k < (name + "_bucket"@).len() implies
                    crate::metric::spec_is_metric_name_char(
                    #[trigger] (name + "_bucket"@)[k],
                ) by {
                    if k < name.len() {
                        assert((name + "_bucket"@)[k] == name[k]);
                    } else {
                        assert((name + "_bucket"@)[k] == ("_bucket"@)[k - name.len()]);
                    }
                }
            }
            lemma_dec_all_digits(b0.count as nat);
            lemma_digits_free_of(spec_dec(b0.count as nat), '\n');
            assert forall|i: int|
                0 <= i < le_extra.len() implies !seq_contains_char(
                (#[trigger] le_extra[i]).0,
                '\n',
            ) by {
                assert(le_extra[i].0 == "le"@);
                assert forall|k: int| 0 <= k < ("le"@).len() implies ("le"@)[k] != '\n'
                    by {}
            }
            lemma_bucket_body_no_newline(
                name + "_bucket"@,
                tags,
                le_extra,
                spec_dec(b0.count as nat),
                ts as nat,
            );
        }
        let rest_lines = spec_bucket_lines(name, tags, buckets.drop_first(), ts);
        assert(spec_bucket_lines(name, tags, buckets, ts) + trailer =~= body0 + seq![
            '\n',
        ] + (rest_lines + trailer));
        lemma_parse_tuples_step(body0, rest_lines + trailer);
        lemma_bound_text_free(b0.upper_bound, '"');
        lemma_bound_text_free(b0.upper_bound, '{');
        lemma_bound_text_free(b0.upper_bound, '}');
        lemma_bound_text_free(b0.upper_bound, '\\');
        lemma_bound_text_free(b0.upper_bound, '\n');
        lemma_bucket_line_parses(name, tags, bound0, b0.count as nat, ts as nat);
        assert(spec_line_tuples(body0) =~= seq![(bound0, b0.count as int)]);
        lemma_parse_bucket_lines(name, tags, buckets.drop_first(), ts, trailer);
        assert(spec_bucket_tuples_of(buckets) =~= seq![(bound0, b0.count as int)]
            + spec_bucket_tuples_of(buckets.drop_first())) by {
            assert(spec_bucket_tuples_of(buckets).len() == buckets.len());
            assert forall|k: int|
                0 <= k < buckets.len() implies #[trigger] spec_bucket_tuples_of(buckets)[k]
                == (seq![(bound0, b0.count as int)] + spec_bucket_tuples_of(
                buckets.drop_first(),
            ))[k] by {
                if k > 0 {
                    assert(buckets.drop_first()[k - 1] == buckets[k]);
                }
            }
        }
        assert(spec_parse_bucket_tuples(
            spec_bucket_lines(name, tags, buckets, ts) + trailer,
        ) =~= spec_bucket_tuples_of(buckets) + spec_parse_bucket_tuples(trailer));
    }
}


/// A sample line body over valid tags, carrying no newline in its value,
/// holds no newline.
proof fn lemma_plain_body_no_newline(
    name_full: Seq<char>,
    tags: Seq<(Seq<char>, Seq<char>)>,
    value: Seq<char>,
    ts: nat,
)
    requires
        !seq_contains_char(name_full, '\n'),
        !seq_contains_char(value, '\n'),
        forall|i: int|
            0 <= i < tags.len() ==> spec_is_tag_name((#[trigger] tags[i]).0)
                && spec_is_tag_value(tags[i].1),
    ensures
        !seq_contains_char(spec_line_body(name_full, tags, value, ts), '\n'),
{
    assert forall|i: int|
        0 <= i < tags.len() implies !seq_contains_char((#[trigger] tags[i]).0, '\n')
        && !seq_contains_char(spec_escape(tags[i].1, true), '\n') by {
        lemma_tag_name_free_of(tags[i].0, '\n');
        lemma_escape_no_newline(tags[i].1, true);
    }
    lemma_joined_pairs_free(tags, '\n');
    let block = spec_label_block(tags);
    assert(!seq_contains_char(block, '\n')) by {
        if tags.len() == 0 {
            assert forall|i: int| 0 <= i < block.len() implies block[i] != '\n' by {}
        } else {
            lemma_single_free('{', '\n');
            lemma_single_free('}', '\n');
            lemma_concat_free(seq!['{'], spec_joined_pairs(tags), '\n');
            lemma_concat_free(seq!['{'] + spec_joined_pairs(tags), seq!['}'], '\n');
        }
    }
    lemma_dec_all_digits(ts);
    lemma_digits_free_of(spec_dec(ts), '\n');
    lemma_single_free(' ', '\n');
    lemma_concat_free(name_full, block, '\n');
    lemma_concat_free(name_full + block, seq![' '], '\n');
    lemma_concat_free(name_full + block + seq![' '], value, '\n');
    lemma_concat_free(name_full + block + seq![' '] + value, seq![' '], '\n');
    lemma_concat_free(
        name_full + block + seq![' '] + value + seq![' '],
        spec_dec(ts),
        '\n',
    );
}

/// Encoding a histogram and then parsing the emitted block yields exactly
/// the histogram's bucket tuples: each bound's rendering with its
/// cumulative count, in bucket order.
#[verifier::rlimit(100)]
pub proof fn lemma_encode_parse_round_trip(h: PrometheusHistogram)
    requires
        h.metric_description.wf(),
    ensures
        spec_parse_bucket_tuples(spec_encode_histogram(h)) == spec_bucket_tuples_of(
            h.buckets@,
        ),
{
    reveal_strlit("# HELP ");
    reveal_strlit("# TYPE ");
    reveal_strlit(" histogram\n");
    reveal_strlit(" histogram");
    reveal_strlit("_sum");
    reveal_strlit("_count");
    let name = h.metric_description.name@;
    let tags = pairs_view(h.metric_description.tags@);
    let ts = h.timestamp_ms;
    assert forall|i: int|
        0 <= i < tags.len() implies spec_is_tag_name((#[trigger] tags[i]).0)
        && spec_is_tag_value(tags[i].1) by {
        assert(tags[i] == (h.metric_description.tags@[i].0@, h.metric_description.tags@[
            i].1@));
        assert(crate::metric::spec_tag_ok(h.metric_description.tags@[i]));
    }
    lemma_name_free_of(name, '\n');

    // The two closing lines parse to nothing.
    let sum_body = spec_line_body(
        name + "_sum"@,
        tags,
        spec_nano_dec_enc(h.sum as nat),
        ts as nat,
    );
    let count_body = spec_line_body(
        name + "_count"@,
        tags,
        spec_dec(h.count as nat),
        ts as nat,
    );
    let sum_line = spec_sample_line(
        name + "_sum"@,
        tags,
        Seq::empty(),
        spec_nano_dec_enc(h.sum as nat),
        Some(ts),
    );
    let count_line = spec_sample_line(
        name + "_count"@,
        tags,
        Seq::empty(),
        spec_dec(h.count as nat),
        Some(ts),
    );
    assert(tags + Seq::<(Seq<char>, Seq<char>)>::empty() =~= tags);
    assert(sum_line =~= sum_body + seq!['\n']);
    assert(count_line =~= count_body + seq!['\n']);
    assert(!seq_contains_char("_sum"@, '\n') && !seq_contains_char("_sum"@, '{')) by {
        assert forall|k: int|
            0 <= k < ("_sum"@).len() implies ("_sum"@)[k] != '\n' && ("_sum"@)[k] != '{'
            by {}
    }
    assert(!seq_contains_char("_count"@, '\n') && !seq_contains_char("_count"@, '{'))
        by {
        assert forall|k: int|
            0 <= k < ("_count"@).len() implies ("_count"@)[k] != '\n' && ("_count"@)[k]
            != '{' by {}
    }
    lemma_concat_free(name, "_sum"@, '\n');
    lemma_concat_free(name, "_count"@, '\n');
    lemma_nano_dec_free_of(h.sum as nat, '\n');
    lemma_dec_all_digits(h.count as nat);
    lemma_digits_free_of(spec_dec(h.count as nat), '\n');
    lemma_plain_body_no_newline(
        name + "_sum"@,
        tags,
        spec_nano_dec_enc(h.sum as nat),
        ts as nat,
    );
    lemma_plain_body_no_newline(
        name + "_count"@,
        tags,
        spec_dec(h.count as nat),
        ts as nat,
    );
    lemma_nano_dec_free_of(h.sum as nat, '{');
    lemma_digits_free_of(spec_dec(h.count as nat), '{');
    lemma_other_line_skipped(
        name,
        tags,
        "_sum"@,
        spec_nano_dec_enc(h.sum as nat),
        ts as nat,
    );
    lemma_other_line_skipped(
        name,
        tags,
        "_count"@,
        spec_dec(h.count as nat),
        ts as nat,
    );
    let trailer = sum_line + count_line;
    assert(trailer =~= sum_body + seq!['\n'] + count_line);
    lemma_parse_tuples_step(sum_body, count_line);
    assert(count_line =~= count_body + seq!['\n'] + Seq::<char>::empty());
    lemma_parse_tuples_step(count_body, Seq::empty());
    assert(spec_parse_bucket_tuples(Seq::empty()) =~= Seq::<(Seq<char>, int)>::empty());
    assert(spec_parse_bucket_tuples(trailer) =~= Seq::<(Seq<char>, int)>::empty());

    // The bucket lines followed by the closing lines yield the tuples.
    lemma_parse_bucket_lines(name, tags, h.buckets@, ts, trailer);
    let lines_and_trailer = spec_bucket_lines(name, tags, h.buckets@, ts) + trailer;
    assert(spec_parse_bucket_tuples(lines_and_trailer) =~= spec_bucket_tuples_of(
        h.buckets@,
    ));

    // The type line (and the help line, when present) parse to nothing.
    let type_body = "# TYPE "@ + name + " histogram"@;
    assert(!seq_contains_char(type_body, '\n')) by {
        assert forall|k: int|
            0 <= k < ("# TYPE "@).len() implies ("# TYPE "@)[k] != '\n' by {}
        assert forall|k: int|
            0 <= k < (" histogram"@).len() implies (" histogram"@)[k] != '\n' by {}
        lemma_concat_free("# TYPE "@, name, '\n');
        lemma_concat_free("# TYPE "@ + name, " histogram"@, '\n');
    }
    assert(spec_parse_bucket_line(type_body) is None) by {
        assert(type_body[0] == ("# TYPE "@)[0]);
        assert(type_body[0] == '#');
    }
    let after_type = lines_and_trailer;
    assert("# TYPE "@ + name + " histogram\n"@ + after_type =~= type_body + seq!['\n']
        + after_type) by {
        assert(" histogram\n"@ =~= " histogram"@ + seq!['\n']);
    }
    lemma_parse_tuples_step(type_body, after_type);

    if h.metric_description.description@.len() == 0 {
        assert(spec_encode_histogram(h) =~= type_body + seq!['\n'] + after_type);
    } else {
        let help_body = "# HELP "@ + name + seq![' '] + spec_escape(
            h.metric_description.description@,
            false,
        );
        assert(!seq_contains_char(help_body, '\n')) by {
            assert forall|k: int|
                0 <= k < ("# HELP "@).len() implies ("# HELP "@)[k] != '\n' by {}
            lemma_escape_no_newline(h.metric_description.description@, false);
            lemma_single_free(' ', '\n');
            lemma_concat_free("# HELP "@, name, '\n');
            lemma_concat_free("# HELP "@ + name, seq![' '], '\n');
            lemma_concat_free(
                "# HELP "@ + name + seq![' '],
                spec_escape(h.metric_description.description@, false),
                '\n',
            );
        }
        assert(spec_parse_bucket_line(help_body) is None) by {
            assert(help_body[0] == ("# HELP "@)[0]);
            assert(help_body[0] == '#');
        }
        assert(spec_encode_histogram(h) =~= help_body + seq!['\n'] + (type_body + seq![
            '\n',
        ] + after_type));
        lemma_parse_tuples_step(help_body, type_body + seq!['\n'] + after_type);
    }
}

} // verus!
