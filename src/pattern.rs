//! The pattern compiler and the rendering of a destination name.
use crate::digits::{push_padded, zero_padded};
use crate::segments::{segments_is_empty, segments_new, segments_of, segments_push, segments_slice};
use arrayvec::ArrayVec;
use vstd::prelude::*;
use vstd::string::StrSliceExecFns;
use vstd::utf8::encode_utf8;

verus! {

/// The kind of a dynamic field of a pattern.
#[derive(Clone, Copy, Debug, PartialEq, Eq, Structural)]
pub enum DynamicRenameContent {
    /// The running index, zero-padded to the width of the run.
    PaddedInteger,
}

/// What went wrong while compiling a pattern.
#[derive(Clone, Copy, Debug, PartialEq, Eq, Structural)]
pub enum RenameSpecParseErrorKind {
    /// The text after an opening `{` is not `padded_idx}`.
    UnexpectedAfterOpenCurlyBrace,
}

/// A pattern that failed to compile, with the byte offset just past the offending `{`.
#[derive(Clone, Copy, Debug, PartialEq, Eq, Structural)]
pub struct RenameSpecParseError {
    pub idx: usize,
    pub source: RenameSpecParseErrorKind,
}

/// A compiled pattern: at most one literal prefix with a dynamic field, then a literal suffix.
#[derive(Debug)]
pub struct RenameSpec {
    delimited: ArrayVec<(String, DynamicRenameContent), 1>,
    suffix: String,
}

/// The mathematical form of a compiled pattern.
pub ghost struct RenameModel {
    pub segments: Seq<(Seq<char>, DynamicRenameContent)>,
    pub suffix: Seq<char>,
}

/// The index and padding width that one destination name is rendered with.
pub struct RenameContext {
    pub idx: usize,
    pub max_size_hint_digits: usize,
}

impl View for RenameSpec {
    type V = RenameModel;

    closed spec fn view(&self) -> RenameModel {
        RenameModel { segments: segments_of(self.delimited), suffix: self.suffix@ }
    }
}

impl RenameSpec {
    /// A compiled pattern holds at most one dynamic segment.
    #[verifier::type_invariant]
    spec fn inv(&self) -> bool {
        segments_of(self.delimited).len() <= 1
    }
}

impl Clone for RenameSpec {
    /// A copy with the same segments and suffix.
    fn clone(&self) -> (r: Self)
        ensures
            r@ == self@,
    {
        proof {
            use_type_invariant(self);
        }
        let segments = segments_slice(&self.delimited);
        let mut delimited = segments_new();
        if segments.len() > 0 {
            let (prefix, dyn_content) = &segments[0];
            segments_push(&mut delimited, (prefix.clone(), *dyn_content));
            assert(segments_of(delimited) =~= segments_of(self.delimited));
        } else {
            assert(segments_of(delimited) =~= segments_of(self.delimited));
        }
        RenameSpec { delimited, suffix: self.suffix.clone() }
    }
}

/// The text that must follow an opening `{`.
pub open spec fn field_token() -> Seq<char> {
    seq!['p', 'a', 'd', 'd', 'e', 'd', '_', 'i', 'd', 'x', '}']
}

/// `s` holds no `{`.
pub open spec fn brace_free(s: Seq<char>) -> bool {
    forall|i: int| 0 <= i < s.len() ==> s[i] != '{'
}

/// `k` is the position of the first `{` of `s`.
pub open spec fn is_first_brace(s: Seq<char>, k: int) -> bool {
    0 <= k < s.len() && s[k] == '{' && brace_free(s.subrange(0, k))
}

/// The number of bytes of the UTF-8 encoding of `s`.
pub open spec fn utf8_len(s: Seq<char>) -> nat {
    encode_utf8(s).len()
}

/// What compiling `s` gives: the compiled form, or the byte offset of the failure.
pub open spec fn parse(s: Seq<char>) -> Result<RenameModel, nat> {
    if brace_free(s) {
        Ok(RenameModel { segments: Seq::empty(), suffix: s })
    } else {
        let k = choose|k: int| is_first_brace(s, k);
        let rest = s.subrange(k + 1, s.len() as int);
        if rest.len() >= field_token().len() && rest.subrange(0, field_token().len() as int)
            == field_token() {
            Ok(
                RenameModel {
                    segments: seq![(s.subrange(0, k), DynamicRenameContent::PaddedInteger)],
                    suffix: rest.subrange(field_token().len() as int, rest.len() as int),
                },
            )
        } else {
            Err(utf8_len(s.subrange(0, k)) + 1)
        }
    }
}

/// The rendering of the first `segments.len()` segments for index `idx` and width `width`.
pub open spec fn render_segments(
    segments: Seq<(Seq<char>, DynamicRenameContent)>,
    idx: nat,
    width: nat,
) -> Seq<char>
    decreases segments.len(),
{
    if segments.len() == 0 {
        Seq::empty()
    } else {
        render_segments(segments.drop_last(), idx, width) + segments.last().0 + zero_padded(
            idx,
            width,
        )
    }
}

/// The destination name that a compiled pattern gives for index `idx` and width `width`.
pub open spec fn render(m: RenameModel, idx: nat, width: nat) -> Seq<char> {
    render_segments(m.segments, idx, width) + m.suffix
}

proof fn lemma_first_brace_unique(s: Seq<char>, k1: int, k2: int)
    requires
        is_first_brace(s, k1),
        is_first_brace(s, k2),
    ensures
        k1 == k2,
{
    if k1 < k2 {
        assert(s.subrange(0, k2)[k1] == s[k1]);
    } else if k2 < k1 {
        assert(s.subrange(0, k1)[k2] == s[k2]);
    }
}

proof fn lemma_utf8_len_concat(a: Seq<char>, b: Seq<char>)
    ensures
        utf8_len(a + b) == utf8_len(a) + utf8_len(b),
    decreases a.len(),
{
    if a.len() > 0 {
        assert((a + b).drop_first() =~= a.drop_first() + b);
        lemma_utf8_len_concat(a.drop_first(), b);
    } else {
        assert(a + b =~= b);
    }
}

proof fn lemma_utf8_len_brace()
    ensures
        utf8_len(seq!['{']) == 1,
{
    assert(seq!['{'].drop_first() =~= Seq::<char>::empty());
    assert(('{' as u32) == 123u32);
    assert(encode_utf8(Seq::<char>::empty()).len() == 0);
    assert(encode_utf8(seq!['{']) == vstd::utf8::encode_scalar('{' as u32) + encode_utf8(
        Seq::<char>::empty(),
    ));
}

/// A pattern without `{` compiles to a pattern with no dynamic field, which renders as the
/// pattern itself for every index and width.
pub proof fn lemma_literal_pattern(s: Seq<char>, idx: nat, width: nat)
    requires
        brace_free(s),
    ensures
        parse(s) is Ok,
        parse(s)->Ok_0.segments.len() == 0,
        render(parse(s)->Ok_0, idx, width) == s,
{
    let m = parse(s)->Ok_0;
    assert(render_segments(m.segments, idx, width) =~= Seq::<char>::empty());
    assert(render(m, idx, width) =~= s);
}

/// A pattern `prefix + "{padded_idx}" + suffix`, with no `{` in `prefix`, compiles to one
/// dynamic field and renders as `prefix`, then the index zero-padded to the width, then
/// `suffix`.
pub proof fn lemma_padded_pattern(prefix: Seq<char>, suffix: Seq<char>, idx: nat, width: nat)
    requires
        brace_free(prefix),
    ensures
        parse(prefix + seq!['{'] + field_token() + suffix) is Ok,
        parse(prefix + seq!['{'] + field_token() + suffix)->Ok_0.segments.len() == 1,
        render(parse(prefix + seq!['{'] + field_token() + suffix)->Ok_0, idx, width) == prefix
            + zero_padded(idx, width) + suffix,
{
    let s = prefix + seq!['{'] + field_token() + suffix;
    let k = prefix.len() as int;
    assert(s.subrange(0, k) =~= prefix);
    assert(s[k] == '{');
    assert(is_first_brace(s, k));
    assert(!brace_free(s));
    let c = choose|c: int| is_first_brace(s, c);
    lemma_first_brace_unique(s, c, k);
    let rest = s.subrange(k + 1, s.len() as int);
    assert(rest =~= field_token() + suffix);
    assert(rest.subrange(0, field_token().len() as int) =~= field_token());
    assert(rest.subrange(field_token().len() as int, rest.len() as int) =~= suffix);
    let m = parse(s)->Ok_0;
    assert(m.segments.drop_last() =~= Seq::<(Seq<char>, DynamicRenameContent)>::empty());
    assert(render_segments(m.segments.drop_last(), idx, width) =~= Seq::<char>::empty());
    assert(render(m, idx, width) =~= prefix + zero_padded(idx, width) + suffix);
}

impl RenameSpec {
    /// Compiles `s`: a first `{` must be followed by `padded_idx}`, and the text before it
    /// becomes the prefix of the one dynamic segment; the rest is the literal suffix.
    pub fn new(s: &str) -> (r: Result<RenameSpec, RenameSpecParseError>)
        ensures
            match r {
                Ok(spec) => parse(s@) == Ok::<RenameModel, nat>(spec@),
                Err(e) => parse(s@) == Err::<RenameModel, nat>(e.idx as nat) && e.source
                    == RenameSpecParseErrorKind::UnexpectedAfterOpenCurlyBrace,
            },
    {
        let byte_len = s.as_bytes().len();
        assert(utf8_len(s@) == byte_len);
        let mut delimited = segments_new();
        let n = s.unicode_len();
        let mut k: usize = 0;
        while k < n
            invariant
                k <= n == s@.len(),
                brace_free(s@.subrange(0, k as int)),
            ensures
                k <= n,
                brace_free(s@.subrange(0, k as int)),
                k < n ==> s@[k as int] == '{',
            decreases n - k,
        {
            if s.get_char(k) == '{' {
                break;
            }
            assert(s@.subrange(0, k + 1) =~= s@.subrange(0, k as int).push(s@[k as int]));
            k = k + 1;
        }
        if k == n {
            assert(s@.subrange(0, k as int) =~= s@);
            let suffix = s.to_owned();
            return Ok(RenameSpec { delimited, suffix });
        }
        assert(is_first_brace(s@, k as int));
        assert(!brace_free(s@));
        proof {
            let c = choose|c: int| is_first_brace(s@, c);
            lemma_first_brace_unique(s@, c, k as int);
        }
        let rest = s.substring_char(k + 1, n);
        let token = "padded_idx}";
        proof {
            reveal_strlit("padded_idx}");
        }
        let tn = token.unicode_len();
        assert(token@ == field_token());
        let rn = rest.unicode_len();
        let mut matched = rn >= tn;
        if matched {
            let mut j: usize = 0;
            while j < tn
                invariant_except_break
                    matched,
                invariant
                    j <= tn == field_token().len() <= rn == rest@.len(),
                    token@ == field_token(),
                    rest@.subrange(0, j as int) == field_token().subrange(0, j as int),
                ensures
                    matched ==> rest@.subrange(0, tn as int) == field_token().subrange(
                        0,
                        tn as int,
                    ),
                    !matched ==> rest@.subrange(0, tn as int) != field_token(),
                decreases tn - j,
            {
                if rest.get_char(j) != token.get_char(j) {
                    assert(rest@.subrange(0, tn as int)[j as int] != field_token()[j as int]);
                    matched = false;
                    break;
                }
                assert(rest@.subrange(0, j + 1) =~= field_token().subrange(0, j + 1));
                j = j + 1;
            }
            if matched {
                assert(field_token().subrange(0, tn as int) =~= field_token());
            }
        }
        assert(matched == (rest@.len() >= field_token().len() && rest@.subrange(
            0,
            field_token().len() as int,
        ) == field_token()));
        assert(rest@ == s@.subrange(k + 1, s@.len() as int));
        if matched {
            let before = s.substring_char(0, k).to_owned();
            let after = rest.substring_char(tn, rn).to_owned();
            segments_push(&mut delimited, (before, DynamicRenameContent::PaddedInteger));
            assert(segments_of(delimited) =~= seq![
                (s@.subrange(0, k as int), DynamicRenameContent::PaddedInteger),
            ]);
            Ok(RenameSpec { delimited, suffix: after })
        } else {
            let before = s.substring_char(0, k);
            proof {
                lemma_utf8_len_concat(s@.subrange(0, k as int), s@.subrange(k as int, n as int));
                lemma_utf8_len_concat(seq!['{'], s@.subrange(k + 1, n as int));
                lemma_utf8_len_brace();
                assert(s@ =~= s@.subrange(0, k as int) + s@.subrange(k as int, n as int));
                assert(s@.subrange(k as int, n as int) =~= seq!['{'] + s@.subrange(
                    k + 1,
                    n as int,
                ));
            }
            let idx = before.len() + 1;
            Err(
                RenameSpecParseError {
                    idx,
                    source: RenameSpecParseErrorKind::UnexpectedAfterOpenCurlyBrace,
                },
            )
        }
    }

    /// Whether the pattern holds a dynamic field.
    pub fn has_dynamic_content(&self) -> (r: bool)
        ensures
            r == (self@.segments.len() > 0),
    {
        !segments_is_empty(&self.delimited)
    }

    /// Appends the destination name for `ctx` to `f`: each segment's prefix and its field,
    /// then the suffix.
    pub fn write(&self, ctx: &RenameContext, f: &mut String)
        ensures
            final(f)@ == old(f)@ + render(self@, ctx.idx as nat, ctx.max_size_hint_digits as nat),
    {
        let segments = segments_slice(&self.delimited);
        let ghost model = self@.segments;
        let mut i: usize = 0;
        while i < segments.len()
            invariant
                i <= segments@.len() == model.len(),
                forall|j: int|
                    0 <= j < segments@.len() ==> segments@[j].0@ == model[j].0 && segments@[j].1
                        == model[j].1,
                f@ == old(f)@ + render_segments(
                    model.subrange(0, i as int),
                    ctx.idx as nat,
                    ctx.max_size_hint_digits as nat,
                ),
            decreases segments@.len() - i,
        {
            let (prefix, dyn_content) = &segments[i];
            f.append(prefix.as_str());
            match dyn_content {
                DynamicRenameContent::PaddedInteger => {
                    push_padded(f, ctx.idx, ctx.max_size_hint_digits);
                },
            }
            assert(model.subrange(0, i + 1).drop_last() =~= model.subrange(0, i as int));
            i = i + 1;
        }
        assert(model.subrange(0, i as int) =~= model);
        f.append(self.suffix.as_str());
    }
}

} // verus!
