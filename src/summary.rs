//! An overview of the formats of a schema, ordered by category and name.
use vstd::prelude::*;
use crate::config::{checked_format_length, widths_sum, FormatDefinition};
use crate::text::chars_of;

verus! {

broadcast use vstd::seq_lib::group_to_multiset_ensures;

/// One line of the overview of a schema's formats.
#[derive(Clone, Debug)]
pub struct FormatSummary {
    pub category: String,
    pub name: String,
    /// How many fields the format has.
    pub field_count: usize,
    /// The record length, where it fits in `usize`.
    pub total_len: Option<usize>,
}

/// Whether `a` comes strictly before `b` in lexicographic order of characters.
pub open spec fn lex_less(a: Seq<char>, b: Seq<char>) -> bool
    decreases a.len(),
{
    if a.len() == 0 {
        b.len() > 0
    } else if b.len() == 0 {
        false
    } else if a[0] != b[0] {
        a[0] < b[0]
    } else {
        lex_less(a.drop_first(), b.drop_first())
    }
}

proof fn lemma_lex_asymmetric(a: Seq<char>, b: Seq<char>)
    requires
        lex_less(a, b),
    ensures
        !lex_less(b, a),
    decreases a.len(),
{
    if a.len() > 0 && b.len() > 0 && a[0] == b[0] {
        lemma_lex_asymmetric(a.drop_first(), b.drop_first());
    }
}

proof fn lemma_lex_transitive(a: Seq<char>, b: Seq<char>, c: Seq<char>)
    requires
        lex_less(a, b),
        lex_less(b, c),
    ensures
        lex_less(a, c),
    decreases a.len(),
{
    if a.len() > 0 && a[0] == b[0] && b[0] == c[0] {
        lemma_lex_transitive(a.drop_first(), b.drop_first(), c.drop_first());
    }
}

/// Whether `x` comes before `y` in the overview: by category, then by name.
pub open spec fn summary_before(x: FormatSummary, y: FormatSummary) -> bool {
    lex_less(x.category@, y.category@) || (x.category@ == y.category@ && lex_less(
        x.name@,
        y.name@,
    ))
}

proof fn lemma_before_asymmetric(x: FormatSummary, y: FormatSummary)
    requires
        summary_before(x, y),
    ensures
        !summary_before(y, x),
{
    if lex_less(x.category@, y.category@) {
        lemma_lex_asymmetric(x.category@, y.category@);
    } else {
        lemma_lex_asymmetric(x.name@, y.name@);
    }
}

proof fn lemma_before_transitive(x: FormatSummary, y: FormatSummary, z: FormatSummary)
    requires
        summary_before(x, y),
        summary_before(y, z),
    ensures
        summary_before(x, z),
{
    if lex_less(x.category@, y.category@) && lex_less(y.category@, z.category@) {
        lemma_lex_transitive(x.category@, y.category@, z.category@);
    } else if x.category@ == y.category@ && y.category@ == z.category@ {
        lemma_lex_transitive(x.name@, y.name@, z.name@);
    }
}

/// An overview line as plain values.
pub open spec fn summary_view(s: FormatSummary) -> (Seq<char>, Seq<char>, usize, Option<usize>) {
    (s.category@, s.name@, s.field_count, s.total_len)
}

/// The overview line of format `name` with layout `def`, as plain values.
pub open spec fn summary_of(name: String, def: FormatDefinition) -> (
    Seq<char>,
    Seq<char>,
    usize,
    Option<usize>,
) {
    (
        def.category@,
        name@,
        def.fields@.len() as usize,
        if widths_sum(def.fields@) <= usize::MAX {
            Some(widths_sum(def.fields@) as usize)
        } else {
            None
        },
    )
}

/// Whether `s` is in overview order.
pub open spec fn in_overview_order(s: Seq<FormatSummary>) -> bool {
    forall|i: int, j: int| 0 <= i < j < s.len() ==> !summary_before(#[trigger] s[j], #[trigger] s[i])
}

fn text_less(a: &String, b: &String) -> (r: bool)
    ensures
        r == lex_less(a@, b@),
{
    let x = chars_of(a.as_str());
    let y = chars_of(b.as_str());
    let mut i: usize = 0;
    assert(x@.subrange(0, x@.len() as int) =~= x@);
    assert(y@.subrange(0, y@.len() as int) =~= y@);
    while i < x.len() && i < y.len() && x[i] == y[i]
        invariant
            i <= x@.len(),
            i <= y@.len(),
            lex_less(x@, y@) == lex_less(
                x@.subrange(i as int, x@.len() as int),
                y@.subrange(i as int, y@.len() as int),
            ),
        decreases x@.len() - i,
    {
        assert(x@.subrange(i as int, x@.len() as int).drop_first() =~= x@.subrange(
            i + 1,
            x@.len() as int,
        ));
        assert(y@.subrange(i as int, y@.len() as int).drop_first() =~= y@.subrange(
            i + 1,
            y@.len() as int,
        ));
        i = i + 1;
    }
    if i == x.len() {
        i < y.len()
    } else if i == y.len() {
        false
    } else {
        x[i] < y[i]
    }
}

fn before(x: &FormatSummary, y: &FormatSummary) -> (r: bool)
    ensures
        r == summary_before(*x, *y),
{
    if text_less(&x.category, &y.category) {
        true
    } else if x.category == y.category {
        text_less(&x.name, &y.name)
    } else {
        false
    }
}

/// The overview of `formats`: one line per format (its category, name,
/// number of fields and record length), ordered by category, then by name.
pub fn format_summaries(formats: &Vec<(String, FormatDefinition)>) -> (r: Vec<FormatSummary>)
    ensures
        r@.map_values(|s: FormatSummary| summary_view(s)).to_multiset() == Seq::new(
            formats@.len(),
            |i: int| summary_of(formats@[i].0, formats@[i].1),
        ).to_multiset(),
        in_overview_order(r@),
{
    let ghost target = Seq::new(
        formats@.len(),
        |i: int| summary_of(formats@[i].0, formats@[i].1),
    );
    let mut out: Vec<FormatSummary> = Vec::new();
    let mut i: usize = 0;
    while i < formats.len()
        invariant
            i <= formats@.len(),
            target == Seq::new(
                formats@.len(),
                |i: int| summary_of(formats@[i].0, formats@[i].1),
            ),
            out@.map_values(|s: FormatSummary| summary_view(s)).to_multiset()
                == target.subrange(0, i as int).to_multiset(),
            in_overview_order(out@),
        decreases formats@.len() - i,
    {
        let (name, def) = (&formats[i].0, &formats[i].1);
        let item = FormatSummary {
            category: def.category.clone(),
            name: name.clone(),
            field_count: def.fields.len(),
            total_len: checked_format_length(def.fields.as_slice()),
        };
        assert(summary_view(item) == target[i as int]);
        let mut p: usize = 0;
        while p < out.len() && !before(&item, &out[p])
            invariant
                p <= out@.len(),
                forall|k: int| 0 <= k < p ==> !summary_before(item, #[trigger] out@[k]),
            decreases out@.len() - p,
        {
            p = p + 1;
        }
        let ghost old_out = out@;
        proof {
            assert forall|k: int| p <= k < old_out.len() implies !summary_before(
                #[trigger] old_out[k],
                item,
            ) by {
                if summary_before(old_out[k], item) {
                    assert(summary_before(item, old_out[p as int]));
                    if k == p {
                        lemma_before_asymmetric(item, old_out[k]);
                    } else {
                        lemma_before_transitive(old_out[k], item, old_out[p as int]);
                    }
                }
            }
        }
        out.insert(p, item);
        proof {
            assert(out@ == old_out.insert(p as int, item));
            assert forall|a: int, b: int| 0 <= a < b < out@.len() implies !summary_before(
                #[trigger] out@[b],
                #[trigger] out@[a],
            ) by {
                if a < p && b < p {
                    assert(out@[a] == old_out[a] && out@[b] == old_out[b]);
                } else if a < p && b == p {
                } else if a < p {
                    assert(out@[a] == old_out[a] && out@[b] == old_out[b - 1]);
                    if summary_before(out@[b], out@[a]) {
                        assert(summary_before(old_out[b - 1], old_out[a]));
                    }
                } else if a == p {
                    assert(out@[b] == old_out[b - 1]);
                } else {
                    assert(out@[a] == old_out[a - 1] && out@[b] == old_out[b - 1]);
                }
            }
            let f = |s: FormatSummary| summary_view(s);
            assert(out@.map_values(f) =~= old_out.map_values(f).insert(p as int, summary_view(item)));
            assert(target.subrange(0, i + 1) =~= target.subrange(0, i as int).push(target[i as int]));
        }
        i = i + 1;
    }
    assert(target.subrange(0, i as int) =~= target);
    out
}

} // verus!
