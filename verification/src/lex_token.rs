//! The description of a token enum that a tokenizer is generated from: each
//! variant names the regular expressions (or constants) its tokens match, or
//! `_` for anything no other variant matches. From it come the names of the
//! generated types, the number of capture groups each variant adds and the
//! pattern of the whole tokenizer.
use vstd::prelude::*;
use vstd::string::StringExecFns;

verus! {

/// How many capture groups the regular expression `pattern` has, counting
/// the implicit group of the whole match; `None` where it does not compile.
pub uninterp spec fn regex_capture_groups(pattern: Seq<char>) -> Option<usize>;

/// `regex::bytes::Regex::new` and `Regex::captures_len`: compiles `pattern`
/// and counts its capture groups. The regex documentation promises that the
/// count includes the group of the whole match and so is at least one. Which
/// patterns compile, and how many groups they have, is not stated here.
#[verifier::external_body]
fn compiled_capture_groups(pattern: &str) -> (res: Option<usize>)
    ensures
        res == regex_capture_groups(pattern@),
        res matches Some(n) ==> n >= 1,
{
    match regex::bytes::Regex::new(pattern) {
        Ok(re) => Some(re.captures_len()),
        Err(_) => None,
    }
}

/// One alternative of a variant: a regular expression with capture groups
/// (and how many, beyond the whole match), one without, or the name of a
/// constant whose value is matched literally.
pub enum LexExpr {
    Captures(String, usize),
    Matches(String),
    Constant(String),
}

/// The alternatives of a variant: `_` (anything else) or a list.
pub enum LexPatterns {
    Any,
    Patterns(Vec<LexExpr>),
}

/// A variant: its name and what it matches.
pub struct LexVariant {
    pub ident: String,
    pub patterns: LexPatterns,
}

/// A token enum: its name and its variants.
pub struct LexEnum {
    pub ident: String,
    pub variants: Vec<LexVariant>,
}

/// A pattern given in a description does not compile.
#[derive(Debug, Clone, PartialEq, Eq)]
pub struct LexParseError {
    pub pattern: String,
}

/// A piece of a generated regular expression: literal text, or the value of
/// a constant, escaped, known only where the generated code runs.
pub enum PatternPiece {
    Text(String),
    Escaped(String),
}

/// What a piece stands for, with constants by their names.
pub enum PieceView {
    Text(Seq<char>),
    Escaped(Seq<char>),
}

impl PatternPiece {
    pub open spec fn view(&self) -> PieceView {
        match self {
            PatternPiece::Text(s) => PieceView::Text(s@),
            PatternPiece::Escaped(s) => PieceView::Escaped(s@),
        }
    }
}

pub open spec fn pieces_view(v: Seq<PatternPiece>) -> Seq<PieceView> {
    v.map_values(|p: PatternPiece| p.view())
}

impl LexExpr {
    /// The number of capture groups beyond the whole match.
    pub open spec fn extra(&self) -> nat {
        match self {
            LexExpr::Captures(_, n) => *n as nat,
            _ => 0,
        }
    }

    /// The alternative that a string literal `pattern` stands for, given how
    /// many capture groups it compiles to (`None` where it does not compile):
    /// an error where it does not compile, `Captures` where it has groups
    /// beyond the whole match, `Matches` otherwise.
    pub fn from_pattern(pattern: String, groups: Option<usize>) -> (res: Result<LexExpr, LexParseError>)
        ensures
            match groups {
                None => res matches Err(e) && e.pattern@ == pattern@,
                Some(n) => if n > 1 {
                    res matches Ok(LexExpr::Captures(p, k)) && p@ == pattern@ && k == n - 1
                } else {
                    res matches Ok(LexExpr::Matches(p)) && p@ == pattern@
                },
            },
    {
        match groups {
            None => Err(LexParseError { pattern }),
            Some(n) => if n > 1 {
                Ok(LexExpr::Captures(pattern, n - 1))
            } else {
                Ok(LexExpr::Matches(pattern))
            },
        }
    }

    /// Reads a string literal alternative: compiles it as a regular
    /// expression and counts its groups.
    pub fn parse_pattern(pattern: String) -> (res: Result<LexExpr, LexParseError>)
        ensures
            match regex_capture_groups(pattern@) {
                None => res matches Err(e) && e.pattern@ == pattern@,
                Some(n) => if n > 1 {
                    res matches Ok(LexExpr::Captures(p, k)) && p@ == pattern@ && k == n - 1
                } else {
                    res matches Ok(LexExpr::Matches(p)) && p@ == pattern@
                },
            },
    {
        let groups = compiled_capture_groups(pattern.as_str());
        LexExpr::from_pattern(pattern, groups)
    }

    /// The pieces of this alternative's regular expression.
    pub fn regex_pattern(&self) -> (res: PatternPiece)
        ensures
            res.view() == expr_piece(*self),
    {
        match self {
            LexExpr::Captures(p, _) => PatternPiece::Text(p.clone()),
            LexExpr::Matches(p) => PatternPiece::Text(p.clone()),
            LexExpr::Constant(c) => PatternPiece::Escaped(c.clone()),
        }
    }
}

pub open spec fn expr_piece(e: LexExpr) -> PieceView {
    match e {
        LexExpr::Captures(p, _) => PieceView::Text(p@),
        LexExpr::Matches(p) => PieceView::Text(p@),
        LexExpr::Constant(c) => PieceView::Escaped(c@),
    }
}

/// The sum of the extra capture groups of `exprs`.
pub open spec fn extra_sum(exprs: Seq<LexExpr>) -> nat
    decreases exprs.len(),
{
    if exprs.len() == 0 {
        0
    } else {
        extra_sum(exprs.drop_last()) + exprs.last().extra()
    }
}

/// The pieces of the alternatives `exprs` joined by `|`.
pub open spec fn alternatives(exprs: Seq<LexExpr>) -> Seq<PieceView>
    decreases exprs.len(),
{
    if exprs.len() == 0 {
        Seq::empty()
    } else if exprs.len() == 1 {
        seq![expr_piece(exprs[0])]
    } else {
        alternatives(exprs.drop_last()).push(PieceView::Text("|"@)).push(expr_piece(exprs.last()))
    }
}

impl LexPatterns {
    pub open spec fn extra_spec(&self) -> nat {
        match self {
            LexPatterns::Any => 0,
            LexPatterns::Patterns(ps) => extra_sum(ps@),
        }
    }

    /// The number of capture groups the variant's alternatives add to the
    /// tokenizer's pattern.
    pub fn extra_capture_count(&self) -> (res: usize)
        requires
            self.extra_spec() <= usize::MAX,
        ensures
            res == self.extra_spec(),
    {
        match self {
            LexPatterns::Any => 0,
            LexPatterns::Patterns(ps) => {
                let mut total: usize = 0;
                let mut i: usize = 0;
                while i < ps.len()
                    invariant
                        i <= ps@.len(),
                        total == extra_sum(ps@.take(i as int)),
                        extra_sum(ps@) <= usize::MAX,
                    decreases ps@.len() - i,
                {
                    proof {
                        assert(ps@.take(i + 1).drop_last() =~= ps@.take(i as int));
                        lemma_extra_sum_prefix(ps@, i + 1);
                    }
                    let n: usize = match &ps[i] {
                        LexExpr::Captures(_, n) => *n,
                        _ => 0,
                    };
                    total = total + n;
                    i = i + 1;
                }
                proof {
                    assert(ps@.take(ps@.len() as int) =~= ps@);
                }
                total
            },
        }
    }

    /// Whether the variant's alternatives add capture groups.
    pub fn is_capturing(&self) -> (res: bool)
        requires
            self.extra_spec() <= usize::MAX,
        ensures
            res == (self.extra_spec() > 0),
    {
        self.extra_capture_count() > 0
    }

    pub open spec fn pattern_spec(&self) -> Seq<PieceView> {
        match self {
            LexPatterns::Any => Seq::empty(),
            LexPatterns::Patterns(ps) => alternatives(ps@),
        }
    }

    /// The pieces of the variant's regular expression: its alternatives
    /// joined by `|`, nothing for `_`.
    pub fn regex_pattern(&self) -> (res: Vec<PatternPiece>)
        ensures
            pieces_view(res@) == self.pattern_spec(),
    {
        let mut out: Vec<PatternPiece> = Vec::new();
        match self {
            LexPatterns::Any => {
                proof {
                    assert(pieces_view(out@) =~= Seq::<PieceView>::empty());
                }
            },
            LexPatterns::Patterns(ps) => {
                let mut i: usize = 0;
                proof {
                    assert(pieces_view(out@) =~= alternatives(ps@.take(0)));
                }
                while i < ps.len()
                    invariant
                        i <= ps@.len(),
                        pieces_view(out@) == alternatives(ps@.take(i as int)),
                    decreases ps@.len() - i,
                {
                    let ghost before = pieces_view(out@);
                    proof {
                        assert(ps@.take(i + 1).drop_last() =~= ps@.take(i as int));
                        assert(ps@.take(i + 1).last() == ps@[i as int]);
                    }
                    if i > 0 {
                        out.push(PatternPiece::Text(String::from_str("|")));
                    }
                    let piece = ps[i].regex_pattern();
                    out.push(piece);
                    proof {
                        if i == 0 {
                            assert(pieces_view(out@) =~= seq![expr_piece(ps@[0])]);
                            assert(ps@.take(1)[0] == ps@[0]);
                        } else {
                            assert(pieces_view(out@) =~= before.push(PieceView::Text("|"@)).push(
                                expr_piece(ps@[i as int]),
                            ));
                        }
                    }
                    i = i + 1;
                }
                proof {
                    assert(ps@.take(ps@.len() as int) =~= ps@);
                }
            },
        }
        out
    }
}

proof fn lemma_extra_sum_prefix(ps: Seq<LexExpr>, k: int)
    requires
        0 <= k <= ps.len(),
    ensures
        extra_sum(ps.take(k)) <= extra_sum(ps),
    decreases ps.len() - k,
{
    if k < ps.len() {
        lemma_extra_sum_prefix(ps, k + 1);
        assert(ps.take(k + 1).drop_last() =~= ps.take(k));
    } else {
        assert(ps.take(k) =~= ps);
    }
}

impl LexVariant {
    /// The name of the token type generated for this variant: `prefix`
    /// followed by the variant's name.
    pub fn token_ident(&self, prefix: &String) -> (res: String)
        ensures
            res@ == prefix@ + self.ident@,
    {
        prefix.clone().concat(self.ident.as_str())
    }
}

/// The pieces of a tokenizer's pattern built from the variants with
/// alternatives: each variant's pattern in a group, the groups joined by `|`.
pub open spec fn tokenizer_pieces(vs: Seq<LexVariant>) -> Seq<PieceView>
    decreases vs.len(),
{
    if vs.len() == 0 {
        Seq::empty()
    } else {
        let rest = tokenizer_pieces(vs.drop_last());
        let v = vs.last();
        if v.patterns is Any {
            rest
        } else if rest.len() == 0 {
            seq![PieceView::Text("("@)] + v.patterns.pattern_spec() + seq![PieceView::Text(")"@)]
        } else {
            rest + seq![PieceView::Text("|("@)] + v.patterns.pattern_spec() + seq![
                PieceView::Text(")"@),
            ]
        }
    }
}

/// Some variant has alternatives.
pub open spec fn has_patterns(vs: Seq<LexVariant>) -> bool {
    exists|i: int| 0 <= i < vs.len() && !(#[trigger] vs[i].patterns is Any)
}

proof fn lemma_tokenizer_pieces_empty(vs: Seq<LexVariant>)
    ensures
        (tokenizer_pieces(vs).len() == 0) == !has_patterns(vs),
    decreases vs.len(),
{
    if vs.len() > 0 {
        lemma_tokenizer_pieces_empty(vs.drop_last());
        if has_patterns(vs.drop_last()) {
            let i = choose|i: int| 0 <= i < vs.drop_last().len() && !(#[trigger] vs.drop_last()[i].patterns is Any);
            assert(vs[i] == vs.drop_last()[i]);
        }
        if has_patterns(vs) && !has_patterns(vs.drop_last()) {
            let i = choose|i: int| 0 <= i < vs.len() && !(#[trigger] vs[i].patterns is Any);
            if i < vs.len() - 1 {
                assert(vs.drop_last()[i] == vs[i]);
            }
        }
        if !has_patterns(vs) {
            assert(vs[vs.len() - 1].patterns is Any);
            assert forall|i: int| 0 <= i < vs.drop_last().len() implies #[trigger] vs.drop_last()[i].patterns is Any by {
                assert(vs.drop_last()[i] == vs[i]);
            }
        }
    }
}

impl LexEnum {
    /// The name of the generated token iterator: the enum's name followed by
    /// `Iter`.
    pub fn iter_ident(&self) -> (res: String)
        ensures
            res@ == self.ident@ + "Iter"@,
    {
        self.ident.clone().concat("Iter")
    }

    /// The pieces of the tokenizer's pattern: one group per variant with
    /// alternatives, in order, joined by `|`. There must be such a variant.
    pub fn tokenizer_regex(&self) -> (res: Vec<PatternPiece>)
        requires
            has_patterns(self.variants@),
        ensures
            pieces_view(res@) == tokenizer_pieces(self.variants@),
            res@.len() > 0,
    {
        let mut out: Vec<PatternPiece> = Vec::new();
        let mut i: usize = 0;
        proof {
            assert(pieces_view(out@) =~= tokenizer_pieces(self.variants@.take(0)));
        }
        while i < self.variants.len()
            invariant
                i <= self.variants@.len(),
                pieces_view(out@) == tokenizer_pieces(self.variants@.take(i as int)),
            decreases self.variants@.len() - i,
        {
            let ghost vs = self.variants@;
            proof {
                assert(vs.take(i + 1).drop_last() =~= vs.take(i as int));
                assert(vs.take(i + 1).last() == vs[i as int]);
            }
            let v = &self.variants[i];
            match &v.patterns {
                LexPatterns::Any => {},
                LexPatterns::Patterns(_) => {
                    let ghost before = pieces_view(out@);
                    let open = if out.len() == 0 {
                        String::from_str("(")
                    } else {
                        String::from_str("|(")
                    };
                    out.push(PatternPiece::Text(open));
                    let mut inner = v.patterns.regex_pattern();
                    out.append(&mut inner);
                    out.push(PatternPiece::Text(String::from_str(")")));
                    proof {
                        let mid = v.patterns.pattern_spec();
                        if before.len() == 0 {
                            assert(pieces_view(out@) =~= seq![PieceView::Text("("@)] + mid + seq![
                                PieceView::Text(")"@),
                            ]);
                        } else {
                            assert(pieces_view(out@) =~= before + seq![PieceView::Text("|("@)] + mid
                                + seq![PieceView::Text(")"@)]);
                        }
                    }
                },
            }
            i = i + 1;
        }
        proof {
            assert(self.variants@.take(self.variants@.len() as int) =~= self.variants@);
            lemma_tokenizer_pieces_empty(self.variants@);
        }
        out
    }
}


// ---------------------------------------------------------------------------
// The catch-all variant and the capture slots of the generated iterator

/// Why a token enum has no single catch-all variant (`Ident = _`).
#[derive(Debug, Clone, Copy, PartialEq, Eq)]
pub enum CatchAllError {
    /// No variant is `_`.
    Missing,
    /// More than one is; the first two, by their index.
    Several { first: usize, second: usize },
}

impl CatchAllError {
    /// The text of the compile error, with the variants of `vs` named.
    pub open spec fn message_spec(self, vs: Seq<LexVariant>) -> Seq<char> {
        match self {
            CatchAllError::Missing => "exhaustive pattern requires one catch-all case (`Ident = _`)"@,
            CatchAllError::Several { first, second } =>
                "can have at most one catch-all case (`Ident = _`) but two were found: "@
                    + vs[first as int].ident@ + " and "@ + vs[second as int].ident@,
        }
    }

    /// The text of the compile error for a token enum whose catch-all
    /// variants are not exactly one: that one is required, or the names of
    /// the first two found.
    pub fn message(&self, lex: &LexEnum) -> (res: String)
        requires
            self matches CatchAllError::Several { first, second } ==> first < lex.variants@.len()
                && second < lex.variants@.len(),
        ensures
            res@ == self.message_spec(lex.variants@),
    {
        match self {
            CatchAllError::Missing => String::from_str(
                "exhaustive pattern requires one catch-all case (`Ident = _`)",
            ),
            CatchAllError::Several { first, second } => {
                let text = String::from_str(
                    "can have at most one catch-all case (`Ident = _`) but two were found: ",
                );
                let text = text.concat(lex.variants[*first].ident.as_str());
                let text = text.concat(" and ");
                text.concat(lex.variants[*second].ident.as_str())
            },
        }
    }
}

/// The indices of the catch-all variants of `vs`, in order.
pub open spec fn any_indices(vs: Seq<LexVariant>) -> Seq<int>
    decreases vs.len(),
{
    if vs.len() == 0 {
        Seq::empty()
    } else if vs.last().patterns is Any {
        any_indices(vs.drop_last()).push(vs.len() - 1)
    } else {
        any_indices(vs.drop_last())
    }
}

/// The catch-all variant of `vs`: the only `_` variant, or the error.
pub open spec fn catch_all_spec(vs: Seq<LexVariant>) -> Result<usize, CatchAllError> {
    let a = any_indices(vs);
    if a.len() == 0 {
        Err(CatchAllError::Missing)
    } else if a.len() == 1 {
        Ok(a[0] as usize)
    } else {
        Err(CatchAllError::Several { first: a[0] as usize, second: a[1] as usize })
    }
}

/// The number of variants of `vs` with alternatives (not `_`).
pub open spec fn pattern_count(vs: Seq<LexVariant>) -> nat
    decreases vs.len(),
{
    if vs.len() == 0 {
        0
    } else if vs.last().patterns is Any {
        pattern_count(vs.drop_last())
    } else {
        pattern_count(vs.drop_last()) + 1
    }
}

/// The number of capture groups beyond the whole match that the variants
/// of `vs` add.
pub open spec fn extra_total(vs: Seq<LexVariant>) -> nat
    decreases vs.len(),
{
    if vs.len() == 0 {
        0
    } else {
        extra_total(vs.drop_last()) + vs.last().patterns.extra_spec()
    }
}

/// Where the generated iterator finds a variant's captures among the search
/// slots (two per group, start and end): the whole match of the variant
/// with pattern number `n` is in slots `2n` and `2n + 1`; its `count` further
/// groups follow one another from slot `extra`, after the slots of every
/// whole match.
#[derive(Debug, Clone, Copy, PartialEq, Eq)]
pub struct CaptureSlots {
    pub variant: usize,
    pub whole: usize,
    pub extra: usize,
    pub count: usize,
}

/// The capture slots of the variants among the first `n` of `vs`, given
/// that `vs` has `patterns` variants with alternatives.
pub open spec fn layout_upto(vs: Seq<LexVariant>, n: int, patterns: nat) -> Seq<CaptureSlots>
    decreases n,
{
    if n <= 0 || n > vs.len() {
        Seq::empty()
    } else {
        let r = layout_upto(vs, n - 1, patterns);
        let v = vs[n - 1];
        if v.patterns is Any {
            r
        } else {
            r.push(
                CaptureSlots {
                    variant: (n - 1) as usize,
                    whole: (2 * pattern_count(vs.take(n - 1))) as usize,
                    extra: (2 * patterns + 2 * extra_total(vs.take(n - 1))) as usize,
                    count: v.patterns.extra_spec() as usize,
                },
            )
        }
    }
}

/// The capture slots of every variant with alternatives, in order.
pub open spec fn capture_layout_spec(vs: Seq<LexVariant>) -> Seq<CaptureSlots> {
    layout_upto(vs, vs.len() as int, pattern_count(vs))
}

proof fn lemma_counts_prefix(vs: Seq<LexVariant>, k: int)
    requires
        0 <= k <= vs.len(),
    ensures
        pattern_count(vs.take(k)) <= pattern_count(vs),
        extra_total(vs.take(k)) <= extra_total(vs),
    decreases vs.len() - k,
{
    if k < vs.len() {
        lemma_counts_prefix(vs, k + 1);
        assert(vs.take(k + 1).drop_last() =~= vs.take(k));
    } else {
        assert(vs.take(k) =~= vs);
    }
}

proof fn lemma_layout_upto_prefix(vs: Seq<LexVariant>, n: int, patterns: nat)
    requires
        0 <= n <= vs.len(),
    ensures
        layout_upto(vs, n, patterns) == layout_upto(vs.take(n), n, patterns),
    decreases n,
{
    if n > 0 {
        lemma_layout_upto_prefix(vs, n - 1, patterns);
        lemma_layout_upto_prefix(vs.take(n), n - 1, patterns);
        assert(vs.take(n).take(n - 1) =~= vs.take(n - 1));
    }
}

impl LexEnum {
    /// The one catch-all variant, by its index: an error where there is
    /// none, and one naming the first two where there are more.
    pub fn catch_all(&self) -> (res: Result<usize, CatchAllError>)
        ensures
            res == catch_all_spec(self.variants@),
            res matches Ok(i) ==> i < self.variants@.len(),
            res matches Err(CatchAllError::Several { first, second }) ==> first < second
                < self.variants@.len(),
    {
        proof {
            lemma_any_indices_bounds(self.variants@);
        }
        let ghost vs = self.variants@;
        let mut first: Option<usize> = None;
        let mut i: usize = 0;
        while i < self.variants.len()
            invariant
                vs == self.variants@,
                i <= vs.len(),
                any_indices(vs.take(i as int)).len() <= 1,
                match first {
                    None => any_indices(vs.take(i as int)).len() == 0,
                    Some(f) => any_indices(vs.take(i as int)) == seq![f as int],
                },
            decreases vs.len() - i,
        {
            proof {
                assert(vs.take(i + 1).drop_last() =~= vs.take(i as int));
                assert(vs.take(i + 1).last() == vs[i as int]);
            }
            if let LexPatterns::Any = self.variants[i].patterns {
                match first {
                    None => {
                        first = Some(i);
                    },
                    Some(f) => {
                        proof {
                            lemma_any_indices_prefix(vs, i + 1);
                            lemma_any_indices_bounds(vs.take(i as int));
                            assert(any_indices(vs.take(i as int))[0] == f as int);
                        }
                        return Err(CatchAllError::Several { first: f, second: i });
                    },
                }
            }
            i = i + 1;
        }
        proof {
            assert(vs.take(vs.len() as int) =~= vs);
        }
        match first {
            None => Err(CatchAllError::Missing),
            Some(f) => Ok(f),
        }
    }

    /// Where the generated iterator finds each variant's captures: one entry
    /// per variant with alternatives, in order.
    pub fn capture_layout(&self) -> (res: Vec<CaptureSlots>)
        requires
            2 * (pattern_count(self.variants@) + extra_total(self.variants@)) <= usize::MAX,
        ensures
            res@ == capture_layout_spec(self.variants@),
    {
        let ghost vs = self.variants@;
        let mut patterns: usize = 0;
        let mut i: usize = 0;
        while i < self.variants.len()
            invariant
                vs == self.variants@,
                i <= vs.len(),
                patterns == pattern_count(vs.take(i as int)),
                2 * (pattern_count(vs) + extra_total(vs)) <= usize::MAX,
            decreases vs.len() - i,
        {
            proof {
                assert(vs.take(i + 1).drop_last() =~= vs.take(i as int));
                lemma_counts_prefix(vs, i + 1);
            }
            if let LexPatterns::Patterns(_) = self.variants[i].patterns {
                patterns = patterns + 1;
            }
            i = i + 1;
        }
        proof {
            assert(vs.take(vs.len() as int) =~= vs);
        }
        let ghost p = pattern_count(vs);
        let mut out: Vec<CaptureSlots> = Vec::new();
        let mut seen: usize = 0;
        let mut extra_before: usize = 0;
        let mut j: usize = 0;
        while j < self.variants.len()
            invariant
                vs == self.variants@,
                j <= vs.len(),
                patterns == p,
                p == pattern_count(vs),
                seen == pattern_count(vs.take(j as int)),
                extra_before == extra_total(vs.take(j as int)),
                2 * (pattern_count(vs) + extra_total(vs)) <= usize::MAX,
                out@ == layout_upto(vs, j as int, p),
            decreases vs.len() - j,
        {
            proof {
                assert(vs.take(j + 1).drop_last() =~= vs.take(j as int));
                assert(vs.take(j + 1).last() == vs[j as int]);
                lemma_counts_prefix(vs, j + 1);
                lemma_counts_prefix(vs, j as int);
            }
            let v = &self.variants[j];
            if let LexPatterns::Patterns(_) = v.patterns {
                let count = v.patterns.extra_capture_count();
                out.push(
                    CaptureSlots {
                        variant: j,
                        whole: 2 * seen,
                        extra: 2 * patterns + 2 * extra_before,
                        count,
                    },
                );
                seen = seen + 1;
                extra_before = extra_before + count;
            }
            j = j + 1;
        }
        out
    }
}

proof fn lemma_any_indices_bounds(vs: Seq<LexVariant>)
    ensures
        forall|k: int| 0 <= k < any_indices(vs).len() ==> 0 <= #[trigger] any_indices(vs)[k] < vs.len(),
        forall|k: int, m: int|
            0 <= k < m < any_indices(vs).len() ==> #[trigger] any_indices(vs)[k] < #[trigger] any_indices(vs)[m],
    decreases vs.len(),
{
    if vs.len() > 0 {
        lemma_any_indices_bounds(vs.drop_last());
        let r = any_indices(vs.drop_last());
        let a = any_indices(vs);
        if vs.last().patterns is Any {
            assert(a == r.push(vs.len() - 1));
            assert forall|k: int| 0 <= k < a.len() implies 0 <= #[trigger] a[k] < vs.len() by {
                if k < r.len() {
                    assert(a[k] == r[k]);
                }
            }
            assert forall|k: int, m: int| 0 <= k < m < a.len() implies #[trigger] a[k] < #[trigger] a[m] by {
                assert(a[k] == r[k]);
                if m < r.len() {
                    assert(a[m] == r[m]);
                }
            }
        } else {
            assert(a == r);
        }
    }
}

proof fn lemma_any_indices_prefix(vs: Seq<LexVariant>, k: int)
    requires
        0 <= k <= vs.len(),
    ensures
        any_indices(vs.take(k)).len() >= 2 ==> any_indices(vs).len() >= 2 && any_indices(vs)[0]
            == any_indices(vs.take(k))[0] && any_indices(vs)[1] == any_indices(vs.take(k))[1],
    decreases vs.len() - k,
{
    if k < vs.len() {
        lemma_any_indices_prefix(vs, k + 1);
        assert(vs.take(k + 1).drop_last() =~= vs.take(k));
    } else {
        assert(vs.take(k) =~= vs);
    }
}

/// The token type generated for a variant: its name, and how many capture
/// groups beyond the whole match it keeps (none: a token without captures).
pub struct TokenStructDecl {
    pub ident: String,
    pub captures: usize,
}

impl View for TokenStructDecl {
    type V = (Seq<char>, nat);

    open spec fn view(&self) -> (Seq<char>, nat) {
        (self.ident@, self.captures as nat)
    }
}

/// The token types of the variants of `vs`, in order, for an enum named
/// `prefix`.
pub open spec fn token_structs_spec(prefix: Seq<char>, vs: Seq<LexVariant>) -> Seq<(Seq<char>, nat)> {
    vs.map_values(|v: LexVariant| (prefix + v.ident@, v.patterns.extra_spec()))
}

proof fn lemma_extra_le_total(vs: Seq<LexVariant>, i: int)
    requires
        0 <= i < vs.len(),
    ensures
        vs[i].patterns.extra_spec() <= extra_total(vs),
    decreases vs.len(),
{
    if i < vs.len() - 1 {
        lemma_extra_le_total(vs.drop_last(), i);
        assert(vs.drop_last()[i] == vs[i]);
    }
}

impl LexEnum {
    /// The token type generated for each variant, in order: named after the
    /// enum and the variant, with the variant's capture groups.
    pub fn token_structs(&self) -> (res: Vec<TokenStructDecl>)
        requires
            extra_total(self.variants@) <= usize::MAX,
        ensures
            res@.map_values(|d: TokenStructDecl| d@) == token_structs_spec(self.ident@, self.variants@),
    {
        let ghost vs = self.variants@;
        let mut out: Vec<TokenStructDecl> = Vec::new();
        let mut i: usize = 0;
        while i < self.variants.len()
            invariant
                vs == self.variants@,
                i <= vs.len(),
                extra_total(vs) <= usize::MAX,
                out@.map_values(|d: TokenStructDecl| d@) == token_structs_spec(self.ident@, vs).take(
                    i as int,
                ),
            decreases vs.len() - i,
        {
            let v = &self.variants[i];
            proof {
                lemma_extra_le_total(vs, i as int);
            }
            let ident = v.token_ident(&self.ident);
            let captures = v.patterns.extra_capture_count();
            let ghost before = out@.map_values(|d: TokenStructDecl| d@);
            assert(before.len() == i);
            let decl = TokenStructDecl { ident, captures };
            assert(decl@ == token_structs_spec(self.ident@, vs)[i as int]);
            out.push(decl);
            proof {
                let spec = token_structs_spec(self.ident@, vs);
                assert(out@.map_values(|d: TokenStructDecl| d@) =~= before.push(spec[i as int]));
                assert(spec.take(i + 1) =~= spec.take(i as int).push(spec[i as int]));
            }
            i = i + 1;
        }
        proof {
            assert(token_structs_spec(self.ident@, vs).take(vs.len() as int) =~= token_structs_spec(
                self.ident@,
                vs,
            ));
        }
        out
    }
}

} // verus!
