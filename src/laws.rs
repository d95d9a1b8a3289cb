use vstd::prelude::*;
use crate::format::{
    directive_at, directive_kind, parse_from, parsed, pending_literal, prefixed, render,
    render_field, FieldView, FormatError, LocalDate,
};

verus! {

/// No `{` and no `}` in `t`.
pub open spec fn is_plain(t: Seq<char>) -> bool {
    forall|j: int| 0 <= j < t.len() ==> t[j] != '{' && t[j] != '}'
}

/// Every literal field is non-empty, holds no brace, and is not followed by
/// another literal field.
pub open spec fn literals_coalesced(fs: Seq<FieldView>) -> bool {
    forall|k: int|
        0 <= k < fs.len() && (#[trigger] fs[k]) is Literal ==> {
            &&& fs[k]->Literal_0.len() > 0
            &&& is_plain(fs[k]->Literal_0)
            &&& (k + 1 < fs.len() ==> !(fs[k + 1] is Literal))
        }
}

/// The empty template parses to no fields, and renders as the empty text.
pub proof fn empty_template_is_empty(d: LocalDate)
    ensures
        parsed(Seq::<char>::empty()) == Ok::<Seq<FieldView>, FormatError>(Seq::<FieldView>::empty()),
        render(Seq::<FieldView>::empty(), d) == Seq::<char>::empty(),
{
    assert(pending_literal(Seq::<char>::empty(), 0, 0) =~= Seq::<FieldView>::empty());
}

proof fn lemma_plain_from(s: Seq<char>, i: int)
    requires
        s.len() > 0,
        is_plain(s),
        0 <= i <= s.len(),
    ensures
        parse_from(s, 0, i) == Ok::<Seq<FieldView>, FormatError>(seq![FieldView::Literal(s)]),
    decreases s.len() - i,
{
    if i < s.len() {
        lemma_plain_from(s, i + 1);
    } else {
        assert(s.subrange(0, s.len() as int) =~= s);
    }
}

/// Non-empty text without braces parses to one literal field holding all of
/// it, and renders as itself for every date.
pub proof fn plain_text_passes_through(s: Seq<char>, d: LocalDate)
    requires
        s.len() > 0,
        is_plain(s),
    ensures
        parsed(s) == Ok::<Seq<FieldView>, FormatError>(seq![FieldView::Literal(s)]),
        render(seq![FieldView::Literal(s)], d) == s,
{
    lemma_plain_from(s, 0);
    let fs = seq![FieldView::Literal(s)];
    assert(fs.drop_last() =~= Seq::<FieldView>::empty());
    assert(render(fs, d) == render(fs.drop_last(), d) + render_field(fs.last(), d));
    assert(render(fs, d) =~= s);
}

/// A lone directive `{:c}` with a known letter `c` parses to its one field.
pub proof fn directive_parses_alone(c: char)
    requires
        directive_kind(c) is Some,
    ensures
        parsed(seq!['{', ':', c, '}']) == Ok::<Seq<FieldView>, FormatError>(
            seq![directive_kind(c)->Some_0],
        ),
{
    let s = seq!['{', ':', c, '}'];
    let f = directive_kind(c)->Some_0;
    assert(directive_at(s, 0) == Ok::<FieldView, FormatError>(f));
    assert(parse_from(s, 4, 4) == Ok::<Seq<FieldView>, FormatError>(Seq::<FieldView>::empty()))
        by {
        assert(pending_literal(s, 4, 4) =~= Seq::<FieldView>::empty());
    }
    assert(pending_literal(s, 0, 0) =~= Seq::<FieldView>::empty());
    assert(pending_literal(s, 0, 0).push(f) + Seq::<FieldView>::empty() =~= seq![f]);
}

proof fn lemma_join_coalesced(p: Seq<FieldView>, f: FieldView, r: Seq<FieldView>)
    requires
        p.len() <= 1,
        literals_coalesced(p),
        !(f is Literal),
        literals_coalesced(r),
    ensures
        literals_coalesced(p.push(f) + r),
{
    let a = p.push(f);
    let all = a + r;
    assert forall|k: int| 0 <= k < all.len() && (#[trigger] all[k]) is Literal implies {
        &&& all[k]->Literal_0.len() > 0
        &&& is_plain(all[k]->Literal_0)
        &&& (k + 1 < all.len() ==> !(all[k + 1] is Literal))
    } by {
        if k < p.len() {
            assert(all[k] == p[k]);
            assert(all[k + 1] == f);
        } else if k >= a.len() {
            assert(all[k] == r[k - a.len()]);
            if k + 1 < all.len() {
                assert(all[k + 1] == r[k + 1 - a.len()]);
            }
        }
    }
}

proof fn lemma_coalesced_from(s: Seq<char>, start: int, i: int)
    requires
        0 <= start <= i <= s.len(),
        forall|j: int| start <= j < i ==> s[j] != '{' && s[j] != '}',
    ensures
        parse_from(s, start, i) is Ok ==> literals_coalesced(parse_from(s, start, i)->Ok_0),
    decreases s.len() - i,
{
    if i >= s.len() {
        let t = s.subrange(start, s.len() as int);
        assert(is_plain(t)) by {
            assert forall|j: int| 0 <= j < t.len() implies t[j] != '{' && t[j] != '}' by {
                assert(t[j] == s[start + j]);
            }
        }
    } else if s[i] == '{' {
        if let Ok(f) = directive_at(s, i) {
            lemma_coalesced_from(s, i + 4, i + 4);
            let p = pending_literal(s, start, i);
            let t = s.subrange(start, i);
            assert(is_plain(t)) by {
                assert forall|j: int| 0 <= j < t.len() implies t[j] != '{' && t[j] != '}' by {
                    assert(t[j] == s[start + j]);
                }
            }
            assert(literals_coalesced(p));
            if let Ok(r) = parse_from(s, i + 4, i + 4) {
                lemma_join_coalesced(p, f, r);
            }
        }
    } else if s[i] != '}' {
        lemma_coalesced_from(s, start, i + 1);
    }
}

/// Parsed literal text is cut exactly at directive boundaries: each literal
/// field is non-empty, holds no brace, and never follows another literal field.
pub proof fn literals_are_coalesced(s: Seq<char>)
    ensures
        parsed(s) is Ok ==> literals_coalesced(parsed(s)->Ok_0),
{
    lemma_coalesced_from(s, 0, 0);
}

} // verus!
