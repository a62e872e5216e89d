//! Metric identity: names, descriptions, tags, and their stable hashes.
//!
//! A concrete metric is identified by its `id`, a hash of the metric name
//! and the tag values; the dimension it belongs to is identified by its
//! `definition_hash`, a hash of the name, the description, and the tag
//! names. Both hashes fold their contributing strings in a canonical sorted
//! order, so permuting the tags leaves them unchanged.
//!
//! Names and tags follow the Prometheus and OpenTSDB conventions:
//! ASCII-only, with names matching `[A-Za-z_:][A-Za-z0-9_:]*`, tag names
//! matching `[A-Za-z_][A-Za-z0-9_]*`, and tag values matching
//! `[A-Za-z0-9._/\-]*`.

use vstd::prelude::*;
use vstd::seq_lib::lemma_sorted_unique;

use crate::errors::Error;
use crate::lex::lemma_lex_leq_total_ordering;
use crate::lex::lex_leq;
use crate::lex::sort_strings;

verus! {

/// Identifier of one concrete metric.
pub type MetricId = u64;

/// Identifier of a metric dimension definition.
pub type MetricDefinitionHash = u64;

/// A metric name.
pub type MetricName = String;

/// The kind of a metric. Only histograms carry behavior in this release.
#[derive(Clone, Copy, Debug, PartialEq, Eq, Structural)]
pub enum MetricKind {
    Counter,
    Gauge,
    Histogram,
}

pub const FNV_OFFSET_BASIS: u64 = 0xcbf2_9ce4_8422_2325;

pub const FNV_PRIME: u64 = 0x0000_0100_0000_01b3;

/// One step of the byte-folding hash, absorbing one character value.
pub open spec fn spec_hash_step(h: u64, v: u64) -> u64 {
    vstd::wrapping::u64_specs::wrapping_mul(h ^ v, FNV_PRIME)
}

/// Absorb a whole character sequence into the hash state.
pub open spec fn spec_hash_chars(h: u64, s: Seq<char>) -> u64
    decreases s.len(),
{
    if s.len() == 0 {
        h
    } else {
        spec_hash_chars(spec_hash_step(h, s[0] as u32 as u64), s.drop_first())
    }
}

/// The value absorbed between two strings, distinct from every character.
pub const HASH_SEPARATOR: u64 = 0xffff_ffff;

/// Absorb a list of strings, separating them so that list boundaries count.
pub open spec fn spec_hash_list_from(h: u64, items: Seq<Seq<char>>) -> u64
    decreases items.len(),
{
    if items.len() == 0 {
        h
    } else {
        spec_hash_list_from(
            spec_hash_step(spec_hash_chars(h, items[0]), HASH_SEPARATOR),
            items.drop_first(),
        )
    }
}

/// The hash of a list of strings, in the order given.
pub open spec fn spec_hash_list(items: Seq<Seq<char>>) -> u64 {
    spec_hash_list_from(FNV_OFFSET_BASIS, items)
}

/// The identity of a concrete metric: the hash of the name and the tag
/// values, folded in canonical sorted order.
pub open spec fn spec_metric_id(name: Seq<char>, values: Seq<Seq<char>>) -> u64 {
    spec_hash_list(values.push(name).sort_by(lex_leq()))
}

/// The identity of a metric dimension: the hash of the name, the
/// description, and the tag names, folded in canonical sorted order.
pub open spec fn spec_definition_hash(
    name: Seq<char>,
    description: Seq<char>,
    tag_names: Seq<Seq<char>>,
) -> u64 {
    spec_hash_list(tag_names.push(name).push(description).sort_by(lex_leq()))
}

/// The tag values of a tag list, in list order.
pub open spec fn tag_values_of(tags: Seq<(String, String)>) -> Seq<Seq<char>> {
    tags.map_values(|t: (String, String)| t.1@)
}

/// The tag names of a tag list, in list order.
pub open spec fn tag_names_of(tags: Seq<(String, String)>) -> Seq<Seq<char>> {
    tags.map_values(|t: (String, String)| t.0@)
}

/// Permuting the hashed strings does not change the hash of the canonical
/// sorted list.
proof fn lemma_hash_list_permutation(items1: Seq<Seq<char>>, items2: Seq<Seq<char>>)
    requires
        items1.to_multiset() == items2.to_multiset(),
    ensures
        spec_hash_list(items1.sort_by(lex_leq())) == spec_hash_list(
            items2.sort_by(lex_leq()),
        ),
{
    lemma_lex_leq_total_ordering();
    items1.lemma_sort_by_ensures(lex_leq());
    items2.lemma_sort_by_ensures(lex_leq());
    lemma_sorted_unique(items1.sort_by(lex_leq()), items2.sort_by(lex_leq()), lex_leq());
}

/// A metric's `id` is a function of the name and the multiset of tag
/// values: two tag lists whose values are permutations of one another give
/// the same `id` for the same name.
pub proof fn lemma_metric_id_permutation(
    name: Seq<char>,
    values1: Seq<Seq<char>>,
    values2: Seq<Seq<char>>,
)
    requires
        values1.to_multiset() == values2.to_multiset(),
    ensures
        spec_metric_id(name, values1) == spec_metric_id(name, values2),
{
    broadcast use vstd::seq_lib::group_to_multiset_ensures;

    assert(values1.push(name).to_multiset() =~= values2.push(name).to_multiset());
    lemma_hash_list_permutation(values1.push(name), values2.push(name));
}

/// A metric's `definition_hash` is a function of the name, the description,
/// and the multiset of tag names: permuting the tag names preserves it.
pub proof fn lemma_definition_hash_permutation(
    name: Seq<char>,
    description: Seq<char>,
    names1: Seq<Seq<char>>,
    names2: Seq<Seq<char>>,
)
    requires
        names1.to_multiset() == names2.to_multiset(),
    ensures
        spec_definition_hash(name, description, names1) == spec_definition_hash(
            name,
            description,
            names2,
        ),
{
    broadcast use vstd::seq_lib::group_to_multiset_ensures;

    assert(names1.push(name).push(description).to_multiset() =~= names2.push(name).push(
        description,
    ).to_multiset());
    lemma_hash_list_permutation(
        names1.push(name).push(description),
        names2.push(name).push(description),
    );
}

/// Absorb the characters of one string into the running hash state.
fn hash_chars(h: u64, s: &String) -> (r: u64)
    ensures
        r == spec_hash_chars(h, s@),
{
    let n: usize = s.as_str().unicode_len();
    let mut acc: u64 = h;
    let mut i: usize = 0;
    proof {
        assert(s@.skip(0) =~= s@);
    }
    while i < n
        invariant
            n == s@.len(),
            i <= n,
            spec_hash_chars(acc, s@.skip(i as int)) == spec_hash_chars(h, s@),
        decreases n - i,
    {
        let c: char = s.as_str().get_char(i);
        proof {
            assert(s@.skip(i as int)[0] == s@[i as int]);
            assert(s@.skip(i as int).drop_first() =~= s@.skip(i as int + 1));
        }
        acc = (acc ^ ((c as u32) as u64)).wrapping_mul(FNV_PRIME);
        proof {
            assert(c as int == c as u32 as int);
        }
        i += 1;
    }
    acc
}

/// The hash of a list of strings, in the order given.
pub fn hash_string_list(items: &Vec<String>) -> (r: u64)
    ensures
        r == spec_hash_list(items.deep_view()),
{
    let mut acc: u64 = FNV_OFFSET_BASIS;
    let mut i: usize = 0;
    proof {
        assert(items.deep_view().skip(0) =~= items.deep_view());
    }
    while i < items.len()
        invariant
            i <= items@.len(),
            items.deep_view().len() == items@.len(),
            spec_hash_list_from(acc, items.deep_view().skip(i as int)) == spec_hash_list(
                items.deep_view(),
            ),
        decreases items@.len() - i,
    {
        proof {
            assert(items.deep_view()[i as int] == items@[i as int]@);
            assert(items.deep_view().skip(i as int)[0] == items.deep_view()[i as int]);
            assert(items.deep_view().skip(i as int).drop_first() =~= items.deep_view().skip(
                i as int + 1,
            ));
        }
        acc = hash_chars(acc, &items[i]);
        acc = (acc ^ HASH_SEPARATOR).wrapping_mul(FNV_PRIME);
        i += 1;
    }
    acc
}

/// Does the character land in `[A-Za-z]`?
pub open spec fn spec_is_alpha(c: char) -> bool {
    ('a' as int) <= (c as int) <= ('z' as int) || ('A' as int) <= (c as int) <= (
    'Z' as int)
}

/// Does the character land in `[0-9]`?
pub open spec fn spec_is_digit(c: char) -> bool {
    ('0' as int) <= (c as int) <= ('9' as int)
}

/// A valid first character of a metric name: `[A-Za-z_:]`.
pub open spec fn spec_is_metric_name_start(c: char) -> bool {
    spec_is_alpha(c) || c == '_' || c == ':'
}

/// A valid character of a metric name: `[A-Za-z0-9_:]`.
pub open spec fn spec_is_metric_name_char(c: char) -> bool {
    spec_is_alpha(c) || spec_is_digit(c) || c == '_' || c == ':'
}

/// A valid metric name matches `[A-Za-z_:][A-Za-z0-9_:]*`.
pub open spec fn spec_is_metric_name(s: Seq<char>) -> bool {
    &&& s.len() > 0
    &&& spec_is_metric_name_start(s[0])
    &&& forall|i: int| 0 <= i < s.len() ==> spec_is_metric_name_char(#[trigger] s[i])
}

/// A valid first character of a tag name: `[A-Za-z_]`.
pub open spec fn spec_is_tag_name_start(c: char) -> bool {
    spec_is_alpha(c) || c == '_'
}

/// A valid character of a tag name: `[A-Za-z0-9_]`.
pub open spec fn spec_is_tag_name_char(c: char) -> bool {
    spec_is_alpha(c) || spec_is_digit(c) || c == '_'
}

/// A valid tag name matches `[A-Za-z_][A-Za-z0-9_]*`.
pub open spec fn spec_is_tag_name(s: Seq<char>) -> bool {
    &&& s.len() > 0
    &&& spec_is_tag_name_start(s[0])
    &&& forall|i: int| 0 <= i < s.len() ==> spec_is_tag_name_char(#[trigger] s[i])
}

/// A valid character of a tag value: `[A-Za-z0-9._/\-]`.
pub open spec fn spec_is_tag_value_char(c: char) -> bool {
    spec_is_alpha(c) || spec_is_digit(c) || c == '-' || c == '_' || c == '.' || c == '/'
}

/// A valid tag value matches `[A-Za-z0-9._/\-]*`.
pub open spec fn spec_is_tag_value(s: Seq<char>) -> bool {
    forall|i: int| 0 <= i < s.len() ==> spec_is_tag_value_char(#[trigger] s[i])
}

/// Is the character an ASCII letter?
fn is_alpha(c: char) -> (r: bool)
    ensures
        r == spec_is_alpha(c),
{
    let v: u32 = c as u32;
    proof {
        assert(c as int == c as u32 as int);
    }
    (97 <= v && v <= 122) || (65 <= v && v <= 90)
}

/// Is the character an ASCII digit?
fn is_digit(c: char) -> (r: bool)
    ensures
        r == spec_is_digit(c),
{
    let v: u32 = c as u32;
    proof {
        assert(c as int == c as u32 as int);
    }
    48 <= v && v <= 57
}

/// Valid metric names must match regex `[A-Za-z_:][A-Za-z0-9_:]*`.
pub fn is_tag_metric_name(name: &str) -> (r: bool)
    ensures
        r == spec_is_metric_name(name@),
{
    let n: usize = name.unicode_len();
    if n == 0 {
        return false;
    }
    let first: char = name.get_char(0);
    if !(is_alpha(first) || first == '_' || first == ':') {
        return false;
    }
    let mut i: usize = 0;
    while i < n
        invariant
            n == name@.len(),
            i <= n,
            forall|j: int| 0 <= j < i ==> spec_is_metric_name_char(#[trigger] name@[j]),
        decreases n - i,
    {
        let c: char = name.get_char(i);
        if !(is_alpha(c) || is_digit(c) || c == '_' || c == ':') {
            return false;
        }
        i += 1;
    }
    true
}

/// Valid tag names must match regex `[A-Za-z_][A-Za-z0-9_]*`.
pub fn is_valid_tag_name(name: &str) -> (r: bool)
    ensures
        r == spec_is_tag_name(name@),
{
    let n: usize = name.unicode_len();
    if n == 0 {
        return false;
    }
    let first: char = name.get_char(0);
    if !(is_alpha(first) || first == '_') {
        return false;
    }
    let mut i: usize = 0;
    while i < n
        invariant
            n == name@.len(),
            i <= n,
            forall|j: int| 0 <= j < i ==> spec_is_tag_name_char(#[trigger] name@[j]),
        decreases n - i,
    {
        let c: char = name.get_char(i);
        if !(is_alpha(c) || is_digit(c) || c == '_') {
            return false;
        }
        i += 1;
    }
    true
}

/// Valid tag values must match regex `[A-Za-z0-9._/\-]*`.
pub fn is_valid_tag_value(name: &str) -> (r: bool)
    ensures
        r == spec_is_tag_value(name@),
{
    let n: usize = name.unicode_len();
    let mut i: usize = 0;
    while i < n
        invariant
            n == name@.len(),
            i <= n,
            forall|j: int| 0 <= j < i ==> spec_is_tag_value_char(#[trigger] name@[j]),
        decreases n - i,
    {
        let c: char = name.get_char(i);
        if !(is_alpha(c) || is_digit(c) || c == '-' || c == '_' || c == '.' || c == '/') {
            return false;
        }
        i += 1;
    }
    true
}

/// The tag's name and value are both valid.
pub open spec fn spec_tag_ok(t: (String, String)) -> bool {
    spec_is_tag_name(t.0@) && spec_is_tag_value(t.1@)
}

/// All tag names and values in the list are valid.
pub open spec fn spec_tags_valid(tags: Seq<(String, String)>) -> bool {
    forall|i: int| 0 <= i < tags.len() ==> #[trigger] spec_tag_ok(tags[i])
}

/// No two tags share a name.
pub open spec fn spec_tag_names_distinct(tags: Seq<(String, String)>) -> bool {
    forall|i: int, j: int|
        0 <= i < j < tags.len() ==> #[trigger] tags[i].0@ != #[trigger] tags[j].0@
}

/// A description is accepted exactly when its name, tag names and tag
/// values are valid and no tag name repeats.
pub open spec fn spec_description_ok(name: Seq<char>, tags: Seq<(String, String)>) -> bool {
    &&& spec_is_metric_name(name)
    &&& spec_tags_valid(tags)
    &&& spec_tag_names_distinct(tags)
}

/// Two tag lists agree observably: same length, and pointwise equal tag
/// name and value characters.
pub open spec fn spec_tags_views_equal(a: Seq<(String, String)>, b: Seq<(String, String)>)
    -> bool {
    &&& a.len() == b.len()
    &&& forall|i: int|
        0 <= i < a.len() ==> (#[trigger] a[i]).0@ == b[i].0@ && a[i].1@ == b[i].1@
}

/// Validity, the identity hash inputs, and the definition hash inputs
/// depend only on the observable characters of the tags.
pub proof fn lemma_tags_views_equal_transfer(a: Seq<(String, String)>, b: Seq<(
    String,
    String,
)>)
    requires
        spec_tags_views_equal(a, b),
    ensures
        spec_tags_valid(a) == spec_tags_valid(b),
        spec_tag_names_distinct(a) == spec_tag_names_distinct(b),
        tag_values_of(a) == tag_values_of(b),
        tag_names_of(a) == tag_names_of(b),
{
    assert(tag_values_of(a) =~= tag_values_of(b));
    assert(tag_names_of(a) =~= tag_names_of(b));
    assert forall|i: int| 0 <= i < a.len() && #[trigger] spec_tag_ok(a[i]) implies
        spec_tag_ok(b[i]) by {}
    assert forall|i: int| 0 <= i < a.len() && #[trigger] spec_tag_ok(b[i]) implies
        spec_tag_ok(a[i]) by {}
    assert(spec_tags_valid(a) == spec_tags_valid(b)) by {
        if spec_tags_valid(a) {
            assert forall|i: int| 0 <= i < b.len() implies #[trigger] spec_tag_ok(b[i])
                by {
                assert(spec_tag_ok(a[i]));
            }
        }
        if spec_tags_valid(b) {
            assert forall|i: int| 0 <= i < a.len() implies #[trigger] spec_tag_ok(a[i])
                by {
                assert(spec_tag_ok(b[i]));
            }
        }
    }
    assert(spec_tag_names_distinct(a) == spec_tag_names_distinct(b)) by {
        if spec_tag_names_distinct(a) {
            assert forall|i: int, j: int| 0 <= i < j < b.len() implies (
            #[trigger] b[i]).0@ != (#[trigger] b[j]).0@ by {
                assert(a[i].0@ != a[j].0@);
            }
        }
        if spec_tag_names_distinct(b) {
            assert forall|i: int, j: int| 0 <= i < j < a.len() implies (
            #[trigger] a[i]).0@ != (#[trigger] a[j]).0@ by {
                assert(b[i].0@ != b[j].0@);
            }
        }
    }
}

/// Copy a tag list, preserving every observable character.
pub fn clone_tags(tags: &Vec<(String, String)>) -> (r: Vec<(String, String)>)
    ensures
        spec_tags_views_equal(r@, tags@),
{
    let mut r: Vec<(String, String)> = Vec::new();
    let mut i: usize = 0;
    while i < tags.len()
        invariant
            i <= tags@.len(),
            r@.len() == i,
            forall|j: int|
                0 <= j < i ==> (#[trigger] r@[j]).0@ == tags@[j].0@ && r@[j].1@
                    == tags@[j].1@,
        decreases tags@.len() - i,
    {
        r.push((tags[i].0.clone(), tags[i].1.clone()));
        i += 1;
    }
    r
}

/// Holds the definition of a concrete metric.
#[derive(Clone, Debug)]
pub struct MetricDescription {
    /// A hash of the name and the tag values: the identifier of this
    /// concrete metric among all metrics.
    pub id: MetricId,
    /// A hash of the name, the description and the tag names: the
    /// identifier of the dimension definition. A dimension can contain
    /// multiple concrete metrics, each with different tag values.
    pub definition_hash: MetricDefinitionHash,
    pub name: MetricName,
    pub description: String,
    pub tag_names: Vec<String>,
    pub tags: Vec<(String, String)>,
}

impl MetricDescription {
    /// The derived fields agree with the stored name, description and tags.
    pub open spec fn wf(&self) -> bool {
        &&& spec_description_ok(self.name@, self.tags@)
        &&& self.tag_names@.len() == self.tags@.len()
        &&& forall|i: int|
            0 <= i < self.tags@.len() ==> #[trigger] self.tag_names@[i]@ == self.tags@[i].0@
        &&& self.id == spec_metric_id(self.name@, tag_values_of(self.tags@))
        &&& self.definition_hash == spec_definition_hash(
            self.name@,
            self.description@,
            tag_names_of(self.tags@),
        )
    }

    /// Build and validate a description. Returns the description exactly
    /// when the name, every tag name and every tag value are valid and no
    /// tag name repeats; any other input is rejected.
    pub fn from(name: String, description: String, tags: Vec<(String, String)>) -> (r:
        Result<MetricDescription, Error>)
        ensures
            r.is_ok() <==> spec_description_ok(name@, tags@),
            r matches Ok(d) ==> {
                &&& d.wf()
                &&& d.name@ == name@
                &&& d.description@ == description@
                &&& d.tags@ == tags@
                &&& d.id == spec_metric_id(name@, tag_values_of(tags@))
                &&& d.definition_hash == spec_definition_hash(
                    name@,
                    description@,
                    tag_names_of(tags@),
                )
            },
            r matches Err(e) ==> e matches Error::Msg(_),
    {
        if !is_tag_metric_name(name.as_str()) {
            let mut message = String::from_str("'");
            message.append(name.as_str());
            message.append(
                "' is not a valid metric name. It must match regex [a-zA-Z_:][a-zA-Z0-9_:]*",
            );
            return Err(Error::Msg(message));
        }
        let mut i: usize = 0;
        while i < tags.len()
            invariant
                i <= tags@.len(),
                forall|j: int| 0 <= j < i ==> #[trigger] spec_tag_ok(tags@[j]),
            decreases tags@.len() - i,
        {
            if !is_valid_tag_name(tags[i].0.as_str()) {
                proof {
                    assert(!spec_tag_ok(tags@[i as int]));
                    assert(!spec_tags_valid(tags@));
                }
                let mut message = String::from_str("'");
                message.append(tags[i].0.as_str());
                message.append(
                    "' is not a valid tag name. It must match regex [a-zA-Z_][a-zA-Z0-9_]*",
                );
                return Err(Error::Msg(message));
            }
            if !is_valid_tag_value(tags[i].1.as_str()) {
                proof {
                    assert(!spec_tag_ok(tags@[i as int]));
                    assert(!spec_tags_valid(tags@));
                }
                let mut message = String::from_str("'");
                message.append(tags[i].1.as_str());
                message.append(
                    "' is not a valid tag value. It must match regex [a-zA-Z0-9-_./]*",
                );
                return Err(Error::Msg(message));
            }
            proof {
                assert(spec_tag_ok(tags@[i as int]));
            }
            i += 1;
        }
        let mut i: usize = 0;
        while i < tags.len()
            invariant
                i <= tags@.len(),
                forall|p: int, q: int|
                    0 <= p < q < tags@.len() && q < i ==> #[trigger] tags@[p].0@
                        != #[trigger] tags@[q].0@,
            decreases tags@.len() - i,
        {
            let mut j: usize = 0;
            while j < i
                invariant
                    j <= i,
                    i < tags@.len(),
                    forall|p: int| 0 <= p < j ==> #[trigger] tags@[p].0@ != tags@[i as int].0@,
                decreases i - j,
            {
                if tags[j].0.eq(&tags[i].0) {
                    let mut message = String::from_str("'");
                    message.append(tags[i].0.as_str());
                    message.append("' is given as a tag name more than once");
                    return Err(Error::Msg(message));
                }
                j += 1;
            }
            i += 1;
        }
        let mut tag_names: Vec<String> = Vec::new();
        let mut i: usize = 0;
        while i < tags.len()
            invariant
                i <= tags@.len(),
                tag_names@.len() == i,
                forall|j: int| 0 <= j < i ==> #[trigger] tag_names@[j]@ == tags@[j].0@,
            decreases tags@.len() - i,
        {
            tag_names.push(tags[i].0.clone());
            i += 1;
        }
        let id: u64 = Self::compute_metric_id(&name, &tags);
        let definition_hash: u64 = Self::compute_metric_definition_hash(
            &name,
            &description,
            &tag_names,
        );
        proof {
            assert(tag_names.deep_view() =~= tag_names_of(tags@));
        }
        Ok(MetricDescription { id, definition_hash, name, description, tag_names, tags })
    }

    /// The identity hash of a concrete metric: name and tag values, folded
    /// in canonical sorted order.
    pub fn compute_metric_id(name: &String, tags: &Vec<(String, String)>) -> (r: u64)
        ensures
            r == spec_metric_id(name@, tag_values_of(tags@)),
    {
        let mut items: Vec<String> = Vec::new();
        let mut i: usize = 0;
        while i < tags.len()
            invariant
                i <= tags@.len(),
                items@.len() == i,
                forall|j: int| 0 <= j < i ==> #[trigger] items@[j]@ == tags@[j].1@,
            decreases tags@.len() - i,
        {
            items.push(tags[i].1.clone());
            i += 1;
        }
        items.push(name.clone());
        proof {
            assert(items.deep_view() =~= tag_values_of(tags@).push(name@));
        }
        let sorted: Vec<String> = sort_strings(&items);
        hash_string_list(&sorted)
    }

    /// The identity hash of a metric dimension: name, description and tag
    /// names, folded in canonical sorted order.
    pub fn compute_metric_definition_hash(
        name: &String,
        description: &String,
        tag_names: &Vec<String>,
    ) -> (r: u64)
        ensures
            r == spec_definition_hash(name@, description@, tag_names.deep_view()),
    {
        let mut items: Vec<String> = Vec::new();
        let mut i: usize = 0;
        while i < tag_names.len()
            invariant
                i <= tag_names@.len(),
                items@.len() == i,
                forall|j: int| 0 <= j < i ==> #[trigger] items@[j]@ == tag_names@[j]@,
            decreases tag_names@.len() - i,
        {
            items.push(tag_names[i].clone());
            i += 1;
        }
        items.push(name.clone());
        items.push(description.clone());
        proof {
            assert(items.deep_view() =~= tag_names.deep_view().push(name@).push(
                description@,
            ));
        }
        let sorted: Vec<String> = sort_strings(&items);
        hash_string_list(&sorted)
    }

    /// A copy of the description that agrees on every observable field.
    pub fn duplicate(&self) -> (r: MetricDescription)
        ensures
            r.id == self.id,
            r.definition_hash == self.definition_hash,
            r.name@ == self.name@,
            r.description@ == self.description@,
            spec_tags_views_equal(r.tags@, self.tags@),
            r.tag_names@.len() == self.tag_names@.len(),
            forall|i: int|
                0 <= i < self.tag_names@.len() ==> #[trigger] r.tag_names@[i]@
                    == self.tag_names@[i]@,
            self.wf() ==> r.wf(),
    {
        let mut tag_names: Vec<String> = Vec::new();
        let mut i: usize = 0;
        while i < self.tag_names.len()
            invariant
                i <= self.tag_names@.len(),
                tag_names@.len() == i,
                forall|j: int|
                    0 <= j < i ==> #[trigger] tag_names@[j]@ == self.tag_names@[j]@,
            decreases self.tag_names@.len() - i,
        {
            tag_names.push(self.tag_names[i].clone());
            i += 1;
        }
        let r = MetricDescription {
            id: self.id,
            definition_hash: self.definition_hash,
            name: self.name.clone(),
            description: self.description.clone(),
            tag_names,
            tags: clone_tags(&self.tags),
        };
        proof {
            if self.wf() {
                lemma_tags_views_equal_transfer(r.tags@, self.tags@);
            }
        }
        r
    }

    pub fn definition_hash(&self) -> (r: MetricDefinitionHash)
        ensures
            r == self.definition_hash,
    {
        self.definition_hash
    }

    pub fn name(&self) -> (r: &str)
        ensures
            r@ == self.name@,
    {
        self.name.as_str()
    }

    pub fn description(&self) -> (r: &str)
        ensures
            r@ == self.description@,
    {
        self.description.as_str()
    }

    pub fn tags(&self) -> (r: &Vec<(String, String)>)
        ensures
            r == &self.tags,
    {
        &self.tags
    }
}

} // verus!
