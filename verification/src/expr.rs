//! The syntax tree: expressions, patterns and binary operators.

use vstd::prelude::*;

verus! {

/// A binary operator token.
#[derive(Clone, Copy, Debug, PartialEq, Eq, Structural)]
pub enum Operator {
    Equals,
    Plus,
    Minus,
    Star,
    Slash,
}

/// A binding pattern.
#[derive(Debug, PartialEq, Eq)]
pub enum Pattern {
    /// `_`
    Underscore,
    /// `{}`
    EmptyRecord,
    /// A lowercase name that the pattern binds.
    Identifier(String),
    /// A tag, with the patterns written directly behind it, if any.
    Variant(String, Option<Vec<Pattern>>),
}

/// The branches of a `case` expression, in source order.
///
/// They are kept in a `SmallVec` of smallvec, with room for two branches in
/// place. What the list holds is [`branch_views`]: the list is read and
/// changed through the functions of this type alone, and each of them says
/// what it does to that value.
#[verifier::external_body]
#[derive(Debug, PartialEq, Eq)]
pub struct Branches {
    items: smallvec::SmallVec<[(Pattern, Box<Expr>); 2]>,
}

/// An expression.
#[derive(Debug, PartialEq, Eq)]
pub enum Expr {
    /// `{}`
    EmptyRecord,
    /// `""`
    EmptyStr,
    /// A string literal without interpolation.
    Str(String),
    /// A string literal with interpolation: for each splice its name and the
    /// literal text in front of it, then the text behind the last splice.
    InterpolatedStr(Vec<(String, String)>, String),
    Char(char),
    Int(i64),
    /// A decimal literal as numerator over denominator.
    Frac(i64, u64),
    If(Box<Expr>, Box<Expr>, Box<Expr>),
    /// The scrutinee and the branches in source order.
    Case(Box<Expr>, Branches),
    /// The bound pattern, the bound expression and the body.
    Let(Pattern, Box<Expr>, Box<Expr>),
    Var(String),
    /// A named function applied to arguments.
    Func(String, Vec<Expr>),
    /// A tag, applied to arguments or bare.
    ApplyVariant(String, Option<Vec<Expr>>),
    /// A parenthesized expression applied to arguments.
    Apply(Box<Expr>, Vec<Expr>),
    Closure(Vec<Pattern>, Box<Expr>),
    Operator(Box<Expr>, Operator, Box<Expr>),
}

/// What a [`Branches`] holds: the value of each branch, in order.
pub uninterp spec fn branch_views(b: Branches) -> Seq<(PatternView, ExprView)>;

impl Branches {
    /// `SmallVec::new` of smallvec: a list that holds nothing.
    #[verifier::external_body]
    pub(crate) fn empty() -> (b: Branches)
        ensures
            branch_views(b) == Seq::<(PatternView, ExprView)>::empty(),
    {
        Branches { items: smallvec::SmallVec::new() }
    }

    /// `SmallVec::push` of smallvec: the branch is appended behind those
    /// that the list holds, which stay as they are.
    #[verifier::external_body]
    pub(crate) fn append(&mut self, pattern: Pattern, body: Expr)
        ensures
            branch_views(*final(self)) == branch_views(*old(self)).push(
                (pattern.to_view(), body.to_view()),
            ),
    {
        self.items.push((pattern, Box::new(body)))
    }

    /// `SmallVec::len` of smallvec: the number of branches in the list.
    #[verifier::external_body]
    pub(crate) fn count(&self) -> (n: usize)
        ensures
            n == branch_views(*self).len(),
    {
        self.items.len()
    }
}

impl Branches {
    /// `SmallVec::as_slice` of smallvec: the branches as a slice, in the
    /// order of the list.
    #[verifier::external_body]
    pub(crate) fn slice(&self) -> (r: &[(Pattern, Box<Expr>)])
        ensures
            r@.len() == branch_views(*self).len(),
            forall|k: int|
                0 <= k < r@.len() ==> ((#[trigger] r@[k]).0.to_view(), (*r@[k].1).to_view())
                    == branch_views(*self)[k],
    {
        self.items.as_slice()
    }

    /// The value of the branches: pattern and body of each, in order.
    pub open spec fn views_of(items: Seq<(Pattern, Expr)>) -> Seq<(PatternView, ExprView)> {
        Seq::new(items.len(), |k: int| (items[k].0.to_view(), items[k].1.to_view()))
    }

    /// A list without branches.
    pub fn new() -> (b: Branches)
        ensures
            b@.len() == 0,
    {
        Branches::empty()
    }

    /// Appends a branch.
    pub fn push(&mut self, pattern: Pattern, body: Expr)
        ensures
            final(self)@ == old(self)@.push((pattern.to_view(), body.to_view())),
    {
        self.append(pattern, body)
    }

    /// The branches of `items`, in their order.
    pub fn from_vec(items: Vec<(Pattern, Expr)>) -> (b: Branches)
        ensures
            b@ == Branches::views_of(items@),
    {
        let mut b = Branches::empty();
        let ghost all = items@;
        for item in it: items
            invariant
                it.seq() == all,
                b@ == Branches::views_of(all.take(it.index() as int)),
        {
            let (pattern, body) = item;
            b.append(pattern, body);
            assert(b@ =~= Branches::views_of(all.take(it.index() + 1)));
        }
        assert(all.take(all.len() as int) =~= all);
        b
    }

    /// The number of branches.
    pub fn len(&self) -> (n: usize)
        ensures
            n == self@.len(),
    {
        self.count()
    }

    /// The pattern and the body of the branch at index `i`, if there is
    /// one.
    pub fn get(&self, i: usize) -> (r: Option<(&Pattern, &Expr)>)
        ensures
            match r {
                Some((pattern, body)) => i < self@.len() && (pattern.to_view(), body.to_view())
                    == self@[i as int],
                None => i >= self@.len(),
            },
    {
        let all = self.slice();
        if i < all.len() {
            let found = &all[i];
            Some((&found.0, &*found.1))
        } else {
            None
        }
    }
}

impl DeepView for Branches {
    type V = Seq<(PatternView, ExprView)>;

    open spec fn deep_view(&self) -> Seq<(PatternView, ExprView)> {
        branch_views(*self)
    }
}

impl View for Branches {
    type V = Seq<(PatternView, ExprView)>;

    open spec fn view(&self) -> Seq<(PatternView, ExprView)> {
        branch_views(*self)
    }
}

/// The mathematical value of a [`Pattern`].
pub enum PatternView {
    Underscore,
    EmptyRecord,
    Identifier(Seq<char>),
    Variant(Seq<char>, Option<Seq<PatternView>>),
}

/// The mathematical value of an [`Expr`].
pub enum ExprView {
    EmptyRecord,
    EmptyStr,
    Str(Seq<char>),
    InterpolatedStr(Seq<(Seq<char>, Seq<char>)>, Seq<char>),
    Char(char),
    Int(int),
    Frac(int, int),
    If(Box<ExprView>, Box<ExprView>, Box<ExprView>),
    Case(Box<ExprView>, Seq<(PatternView, ExprView)>),
    Let(PatternView, Box<ExprView>, Box<ExprView>),
    Var(Seq<char>),
    Func(Seq<char>, Seq<ExprView>),
    ApplyVariant(Seq<char>, Option<Seq<ExprView>>),
    Apply(Box<ExprView>, Seq<ExprView>),
    Closure(Seq<PatternView>, Box<ExprView>),
    Operator(Box<ExprView>, Operator, Box<ExprView>),
}

/// Ten to a power of at least one: the denominator that a decimal literal
/// with that many digits behind its point has.
pub open spec fn is_decimal_denominator(d: int) -> bool {
    exists|k: nat| k >= 1 && d == #[trigger] crate::number::pow10(k)
}

impl PatternView {
    /// Names are well formed, and a list of patterns behind a tag is not
    /// empty.
    pub open spec fn wf(self) -> bool
        decreases self,
    {
        match self {
            PatternView::Underscore | PatternView::EmptyRecord => true,
            PatternView::Identifier(name) => crate::ident::valid_ident(name),
            PatternView::Variant(name, None) => crate::ident::valid_variant_name(name),
            PatternView::Variant(name, Some(subs)) => {
                &&& crate::ident::valid_variant_name(name)
                &&& subs.len() > 0
                &&& forall|k: int| 0 <= k < subs.len() ==> (#[trigger] subs[k]).wf()
            },
        }
    }
}

/// Every pattern of the list is well formed.
pub open spec fn patterns_wf(patterns: Seq<PatternView>) -> bool {
    forall|k: int| 0 <= k < patterns.len() ==> (#[trigger] patterns[k]).wf()
}

impl ExprView {
    /// The tree is one that the grammar can give: names are well formed,
    /// numbers fit their fields, a denominator is a power of ten, and no
    /// list of branches, arguments, parameters or splices is empty.
    pub open spec fn wf(self) -> bool
        decreases self,
    {
        match self {
            ExprView::EmptyRecord | ExprView::EmptyStr | ExprView::Char(_) => true,
            ExprView::Str(text) => text.len() > 0,
            ExprView::InterpolatedStr(segments, _) => {
                &&& segments.len() > 0
                &&& forall|k: int|
                    0 <= k < segments.len() ==> crate::ident::valid_ident(
                        (#[trigger] segments[k]).0,
                    )
            },
            ExprView::Int(value) => -i64::MAX <= value <= i64::MAX,
            ExprView::Frac(numerator, denominator) => {
                &&& -i64::MAX <= numerator <= i64::MAX
                &&& denominator <= u64::MAX
                &&& is_decimal_denominator(denominator)
            },
            ExprView::If(condition, then_branch, else_branch) => condition.wf() && then_branch.wf()
                && else_branch.wf(),
            ExprView::Case(scrutinee, branches) => {
                &&& scrutinee.wf()
                &&& branches.len() > 0
                &&& forall|k: int|
                    0 <= k < branches.len() ==> (#[trigger] branches[k]).0.wf() && branches[k].1.wf()
            },
            ExprView::Let(pattern, bound, body) => pattern.wf() && bound.wf() && body.wf(),
            ExprView::Var(name) => crate::ident::valid_ident(name),
            ExprView::Func(name, args) => {
                &&& crate::ident::valid_ident(name)
                &&& args.len() > 0
                &&& forall|k: int| 0 <= k < args.len() ==> (#[trigger] args[k]).wf()
            },
            ExprView::ApplyVariant(name, None) => crate::ident::valid_variant_name(name),
            ExprView::ApplyVariant(name, Some(args)) => {
                &&& crate::ident::valid_variant_name(name)
                &&& args.len() > 0
                &&& forall|k: int| 0 <= k < args.len() ==> (#[trigger] args[k]).wf()
            },
            ExprView::Apply(callee, args) => {
                &&& callee.wf()
                &&& args.len() > 0
                &&& forall|k: int| 0 <= k < args.len() ==> (#[trigger] args[k]).wf()
            },
            ExprView::Closure(patterns, body) => {
                &&& patterns.len() > 0
                &&& patterns_wf(patterns)
                &&& body.wf()
            },
            ExprView::Operator(left, _, right) => left.wf() && right.wf(),
        }
    }
}

/// Every expression of the list is well formed.
pub open spec fn exprs_wf(exprs: Seq<ExprView>) -> bool {
    forall|k: int| 0 <= k < exprs.len() ==> (#[trigger] exprs[k]).wf()
}

/// Every branch of the list is well formed.
pub open spec fn branches_wf(branches: Seq<(PatternView, ExprView)>) -> bool {
    forall|k: int|
        0 <= k < branches.len() ==> (#[trigger] branches[k]).0.wf() && branches[k].1.wf()
}

impl DeepView for Operator {
    type V = Operator;

    open spec fn deep_view(&self) -> Operator {
        *self
    }
}

impl Pattern {
    /// The pattern as a mathematical value.
    pub open spec fn to_view(&self) -> PatternView
        decreases self,
    {
        match self {
            Pattern::Underscore => PatternView::Underscore,
            Pattern::EmptyRecord => PatternView::EmptyRecord,
            Pattern::Identifier(name) => PatternView::Identifier(name@),
            Pattern::Variant(name, None) => PatternView::Variant(name@, None),
            Pattern::Variant(name, Some(subs)) => PatternView::Variant(
                name@,
                Some(Seq::new(
                    subs@.len(),
                    |i: int| if 0 <= i < subs@.len() { subs[i].to_view() } else { PatternView::Underscore },
                )),
            ),
        }
    }
}

impl DeepView for Pattern {
    type V = PatternView;

    open spec fn deep_view(&self) -> PatternView {
        self.to_view()
    }
}

impl View for Pattern {
    type V = PatternView;

    open spec fn view(&self) -> PatternView {
        self.to_view()
    }
}

impl Expr {
    /// The expression as a mathematical value.
    pub open spec fn to_view(&self) -> ExprView
        decreases self,
    {
        match self {
            Expr::EmptyRecord => ExprView::EmptyRecord,
            Expr::EmptyStr => ExprView::EmptyStr,
            Expr::Str(text) => ExprView::Str(text@),
            Expr::InterpolatedStr(segments, trailing) => ExprView::InterpolatedStr(
                Seq::new(segments@.len(), |i: int| (segments@[i].0@, segments@[i].1@)),
                trailing@,
            ),
            Expr::Char(c) => ExprView::Char(*c),
            Expr::Int(n) => ExprView::Int(*n as int),
            Expr::Frac(n, d) => ExprView::Frac(*n as int, *d as int),
            Expr::If(c, t, e) => ExprView::If(
                Box::new((**c).to_view()),
                Box::new((**t).to_view()),
                Box::new((**e).to_view()),
            ),
            Expr::Case(scrutinee, branches) => ExprView::Case(
                Box::new((**scrutinee).to_view()),
                branch_views(*branches),
            ),
            Expr::Let(pattern, bound, body) => ExprView::Let(
                pattern.to_view(),
                Box::new((**bound).to_view()),
                Box::new((**body).to_view()),
            ),
            Expr::Var(name) => ExprView::Var(name@),
            Expr::Func(name, args) => ExprView::Func(
                name@,
                Seq::new(
                    args@.len(),
                    |i: int| if 0 <= i < args@.len() { args[i].to_view() } else { ExprView::EmptyRecord },
                ),
            ),
            Expr::ApplyVariant(name, None) => ExprView::ApplyVariant(name@, None),
            Expr::ApplyVariant(name, Some(args)) => ExprView::ApplyVariant(
                name@,
                Some(Seq::new(
                    args@.len(),
                    |i: int| if 0 <= i < args@.len() { args[i].to_view() } else { ExprView::EmptyRecord },
                )),
            ),
            Expr::Apply(callee, args) => ExprView::Apply(
                Box::new((**callee).to_view()),
                Seq::new(
                    args@.len(),
                    |i: int| if 0 <= i < args@.len() { args[i].to_view() } else { ExprView::EmptyRecord },
                ),
            ),
            Expr::Closure(patterns, body) => ExprView::Closure(
                Seq::new(
                    patterns@.len(),
                    |i: int| if 0 <= i < patterns@.len() { patterns[i].to_view() } else { PatternView::Underscore },
                ),
                Box::new((**body).to_view()),
            ),
            Expr::Operator(left, op, right) => ExprView::Operator(
                Box::new((**left).to_view()),
                *op,
                Box::new((**right).to_view()),
            ),
        }
    }
}

impl DeepView for Expr {
    type V = ExprView;

    open spec fn deep_view(&self) -> ExprView {
        self.to_view()
    }
}

impl View for Expr {
    type V = ExprView;

    open spec fn view(&self) -> ExprView {
        self.to_view()
    }
}

/// The value of a list grows by the value of the item pushed.
pub proof fn lemma_deep_view_push<T: DeepView>(before: Vec<T>, after: Vec<T>, item: T)
    requires
        after@ == before@.push(item),
    ensures
        after.deep_view() == before.deep_view().push(item.deep_view()),
{
    assert(after.deep_view() =~= before.deep_view().push(item.deep_view()));
}

/// The value of a tag pattern with patterns behind it.
pub proof fn lemma_variant_pattern_view(name: String, subs: Vec<Pattern>)
    ensures
        Pattern::Variant(name, Some(subs)).to_view() == PatternView::Variant(
            name@,
            Some(subs.deep_view()),
        ),
{
    assert(Pattern::Variant(name, Some(subs)).to_view()->Variant_1.unwrap() =~= subs.deep_view());
}

/// The value of a function application.
pub proof fn lemma_func_view(name: String, args: Vec<Expr>)
    ensures
        Expr::Func(name, args).to_view() == ExprView::Func(name@, args.deep_view()),
{
    assert(Expr::Func(name, args).to_view()->Func_1 =~= args.deep_view());
}

/// The value of a tag applied to arguments.
pub proof fn lemma_apply_variant_view(name: String, args: Vec<Expr>)
    ensures
        Expr::ApplyVariant(name, Some(args)).to_view() == ExprView::ApplyVariant(
            name@,
            Some(args.deep_view()),
        ),
{
    assert(Expr::ApplyVariant(name, Some(args)).to_view()->ApplyVariant_1.unwrap()
        =~= args.deep_view());
}

/// The value of an applied expression.
pub proof fn lemma_apply_view(callee: Expr, args: Vec<Expr>)
    ensures
        Expr::Apply(Box::new(callee), args).to_view() == ExprView::Apply(
            Box::new(callee.to_view()),
            args.deep_view(),
        ),
{
    assert(Expr::Apply(Box::new(callee), args).to_view()->Apply_1 =~= args.deep_view());
}

/// The value of a closure.
pub proof fn lemma_closure_view(patterns: Vec<Pattern>, body: Expr)
    ensures
        Expr::Closure(patterns, Box::new(body)).to_view() == ExprView::Closure(
            patterns.deep_view(),
            Box::new(body.to_view()),
        ),
{
    assert(Expr::Closure(patterns, Box::new(body)).to_view()->Closure_0 =~= patterns.deep_view());
}

} // verus!
