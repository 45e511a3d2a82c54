//! The symbol table: every declaration found in the document, keyed by
//! name, with exact visibility ranges.
//!
//! A declaration is visible at a position according to
//! [`decl_visible_at`]: a function is hoisted and visible anywhere outside
//! its own header, a variable only after its declaring statement ends, and
//! a declaration with an enclosing scope only strictly inside that scope.
//! Within one name, no two declarations may share a scope; the second such
//! insertion is rejected, which is the signal for a redeclaration error.

use vstd::prelude::*;

use crate::analyzer::Identifier;
use crate::builtins::{
    builtin_args, builtin_docs, builtin_functions, builtin_names, strings_view, BuiltinFn,
};
use crate::position::{nil_range, Position, Range};

verus! {

/// What a declaration binds: a variable, or a function with its parameter
/// names.
#[derive(Debug, Clone)]
pub enum DeclarationKind {
    Variable,
    Function(Vec<String>),
}

/// Mathematical form of [`DeclarationKind`].
#[verifier::ext_equal]
pub ghost enum KindV {
    Variable,
    Function(Seq<Seq<char>>),
}

impl View for DeclarationKind {
    type V = KindV;

    open spec fn view(&self) -> KindV {
        match self {
            DeclarationKind::Variable => KindV::Variable,
            DeclarationKind::Function(args) => KindV::Function(strings_view(args@)),
        }
    }
}

/// One binding introduced in the document (or preloaded as a builtin).
#[derive(Debug, Clone)]
pub struct Declaration {
    pub name: String,
    pub name_range: Range,
    pub kind: DeclarationKind,
    pub doc: Option<String>,
    pub used: bool,
    pub range: Range,
    pub scope: Option<Range>,
    pub builtin: bool,
    pub param: bool,
}

/// Mathematical form of [`Declaration`].
#[verifier::ext_equal]
pub ghost struct DeclV {
    pub name: Seq<char>,
    pub name_range: Range,
    pub kind: KindV,
    pub doc: Option<Seq<char>>,
    pub used: bool,
    pub range: Range,
    pub scope: Option<Range>,
    pub builtin: bool,
    pub param: bool,
}

impl View for Declaration {
    type V = DeclV;

    open spec fn view(&self) -> DeclV {
        DeclV {
            name: self.name@,
            name_range: self.name_range,
            kind: self.kind@,
            doc: match &self.doc {
                Some(d) => Some(d@),
                None => None,
            },
            used: self.used,
            range: self.range,
            scope: self.scope,
            builtin: self.builtin,
            param: self.param,
        }
    }
}

/// The views of a sequence of declarations, element by element.
pub open spec fn decls_view(v: Seq<Declaration>) -> Seq<DeclV> {
    v.map_values(|d: Declaration| d@)
}

/// Two declarations redeclare each other when they bind the same name in
/// the same scope.
pub open spec fn same_binding(a: DeclV, b: DeclV) -> bool {
    a.name == b.name && a.scope == b.scope
}

impl vstd::std_specs::cmp::PartialEqSpecImpl for Declaration {
    open spec fn obeys_eq_spec() -> bool {
        true
    }

    open spec fn eq_spec(&self, other: &Declaration) -> bool {
        same_binding(self@, other@)
    }
}

impl PartialEq for Declaration {
    /// Structural equality for redeclaration purposes: same name and same
    /// scope.
    fn eq(&self, other: &Declaration) -> (r: bool) {
        let scope_eq = match (self.scope, other.scope) {
            (Some(a), Some(b)) => a == b,
            (None, None) => true,
            _ => false,
        };
        self.name == other.name && scope_eq
    }
}

/// Clones a vector of strings, keeping every element.
fn clone_strings(v: &Vec<String>) -> (r: Vec<String>)
    ensures
        r@ == v@,
{
    let mut r: Vec<String> = Vec::new();
    let mut i: usize = 0;
    while i < v.len()
        invariant
            i <= v@.len(),
            r@.len() == i,
            forall|j: int| 0 <= j < i ==> r@[j] == v@[j],
        decreases v@.len() - i,
    {
        r.push(v[i].clone());
        i += 1;
    }
    proof {
        assert(r@ =~= v@);
    }
    r
}

impl DeclarationKind {
    /// Whether this kind is a function binding.
    pub fn is_function(&self) -> (r: bool)
        ensures
            r == (self@ matches KindV::Function(_)),
    {
        match self {
            DeclarationKind::Function(_) => true,
            _ => false,
        }
    }

    /// Clones this kind, keeping its value.
    pub fn duplicate(&self) -> (r: DeclarationKind)
        ensures
            r@ == self@,
    {
        match self {
            DeclarationKind::Variable => DeclarationKind::Variable,
            DeclarationKind::Function(args) => DeclarationKind::Function(clone_strings(args)),
        }
    }
}

/// The comma-separated join of a sequence of names.
pub open spec fn join_comma(args: Seq<Seq<char>>) -> Seq<char>
    decreases args.len(),
{
    if args.len() == 0 {
        seq![]
    } else if args.len() == 1 {
        args[0]
    } else {
        join_comma(args.drop_last()) + ", "@ + args.last()
    }
}

/// The one-line signature that [`Declaration::get_details`] renders:
/// parameters and variables name themselves, a function shows its
/// parameter list, and a builtin function is marked as such.
pub open spec fn details_of(d: DeclV) -> Seq<char> {
    if d.param {
        "parameter: "@ + d.name
    } else {
        match d.kind {
            KindV::Variable => "variable: "@ + d.name,
            KindV::Function(args) => "function "@ + d.name + "("@ + join_comma(args) + ") {}"@
                + if d.builtin {
                " -- builtin function"@
            } else {
                Seq::<char>::empty()
            },
        }
    }
}

impl Declaration {
    /// Builds a user declaration: not yet used, not a builtin, with no
    /// documentation.
    pub fn new(
        name: String,
        kind: DeclarationKind,
        range: Range,
        name_range: Range,
        scope: Option<Range>,
        is_param: bool,
    ) -> (r: Declaration)
        ensures
            r@ == (DeclV {
                name: name@,
                name_range,
                kind: kind@,
                doc: None,
                used: false,
                range,
                scope,
                builtin: false,
                param: is_param,
            }),
    {
        Declaration {
            name,
            kind,
            doc: None,
            range,
            name_range,
            scope,
            used: false,
            builtin: false,
            param: is_param,
        }
    }

    /// Builds the preloaded declaration of one builtin function: already
    /// marked used, module-scoped, carrying the catalog documentation.
    pub fn from_builtin(value: &BuiltinFn) -> (r: Declaration)
        ensures
            r@ == (DeclV {
                name: value@.name,
                name_range: nil_range(),
                kind: KindV::Function(value@.args),
                doc: Some(value@.doc),
                used: true,
                range: nil_range(),
                scope: None,
                builtin: true,
                param: false,
            }),
    {
        Declaration {
            name: value.name.clone(),
            kind: DeclarationKind::Function(clone_strings(&value.args)),
            doc: Some(value.doc.clone()),
            range: Range::nil(),
            name_range: Range::nil(),
            scope: None,
            used: true,
            builtin: true,
            param: false,
        }
    }

    /// Clones this declaration, keeping every field.
    pub fn duplicate(&self) -> (r: Declaration)
        ensures
            r@ == self@,
    {
        Declaration {
            name: self.name.clone(),
            name_range: self.name_range,
            kind: self.kind.duplicate(),
            doc: match &self.doc {
                Some(d) => Some(d.clone()),
                None => None,
            },
            used: self.used,
            range: self.range,
            scope: self.scope,
            builtin: self.builtin,
            param: self.param,
        }
    }

    /// Renders the one-line signature shown as a completion detail.
    pub fn get_details(&self) -> (r: String)
        ensures
            r@ == details_of(self@),
    {
        if self.param {
            let mut m = "parameter: ".to_owned();
            m.append(self.name.as_str());
            m
        } else {
            match &self.kind {
                DeclarationKind::Variable => {
                    let mut m = "variable: ".to_owned();
                    m.append(self.name.as_str());
                    m
                },
                DeclarationKind::Function(args) => {
                    let mut m = "function ".to_owned();
                    m.append(self.name.as_str());
                    m.append("(");
                    let mut i: usize = 0;
                    while i < args.len()
                        invariant
                            i <= args@.len(),
                            m@ == "function "@ + self.name@ + "("@ + join_comma(
                                strings_view(args@).take(i as int),
                            ) + if i > 0 && i < args@.len() {
                                ", "@
                            } else {
                                Seq::<char>::empty()
                            },
                        decreases args@.len() - i,
                    {
                        m.append(args[i].as_str());
                        if i + 1 < args.len() {
                            m.append(", ");
                        }
                        proof {
                            assert(strings_view(args@).take(i + 1 as int).drop_last() =~= strings_view(
                                args@,
                            ).take(i as int));
                            assert(strings_view(args@).take(i + 1 as int).last() == args@[i as int]@);
                        }
                        i += 1;
                    }
                    proof {
                        assert(strings_view(args@).take(args@.len() as int) =~= strings_view(args@));
                    }
                    m.append(") {}");
                    if self.builtin {
                        m.append(" -- builtin function");
                    }
                    m
                },
            }
        }
    }
}

/// Whether a declaration is visible at a position. A function is hoisted:
/// it is visible anywhere outside its own header `[start, end)` — before
/// the header's start or at and after its end, which is the body's start.
/// A variable is visible only strictly after its declaring range ends. In
/// both cases a declaration with an enclosing scope is visible only
/// strictly inside that scope; no scope means module-level, visible per
/// the first rule alone.
pub open spec fn decl_visible_at(d: DeclV, position: Position) -> bool {
    let condition = match d.kind {
        KindV::Function(_) => position.is_before(d.range.start) || !position.is_before(
            d.range.end,
        ),
        KindV::Variable => position.is_after(d.range.end),
    };
    let inside_scope = match d.scope {
        Some(scope) => position.is_after(scope.start) && position.is_before(scope.end),
        None => true,
    };
    condition && inside_scope
}

/// Decides [`decl_visible_at`].
pub fn is_declaration_at(decl: &Declaration, position: Position) -> (r: bool)
    ensures
        r == decl_visible_at(decl@, position),
{
    let condition = match &decl.kind {
        DeclarationKind::Function(_) => position.before(&decl.range.start) || !position.before(
            &decl.range.end,
        ),
        DeclarationKind::Variable => position.after(&decl.range.end),
    };
    let inside_scope = match decl.scope {
        Some(scope) => position.after(&scope.start) && position.before(&scope.end),
        None => true,
    };
    condition && inside_scope
}

/// Decides [`scope_inner_than`].
fn scope_is_inner(a: Option<Range>, b: Option<Range>) -> (r: bool)
    ensures
        r == scope_inner_than(a, b),
{
    match (a, b) {
        (Some(sa), Some(sb)) => sb.start.before(&sa.start),
        (Some(_), None) => true,
        _ => false,
    }
}

/// One name's declarations, in insertion order.
#[derive(Debug, Clone)]
pub struct Bucket {
    pub name: String,
    pub decls: Vec<Declaration>,
}

/// Mathematical form of [`Bucket`].
#[verifier::ext_equal]
pub ghost struct BucketV {
    pub name: Seq<char>,
    pub decls: Seq<DeclV>,
}

impl View for Bucket {
    type V = BucketV;

    open spec fn view(&self) -> BucketV {
        BucketV { name: self.name@, decls: decls_view(self.decls@) }
    }
}

/// The index of the first bucket holding `name`, or -1 when none does.
pub open spec fn bucket_index(m: Seq<BucketV>, name: Seq<char>) -> int
    decreases m.len(),
{
    if m.len() == 0 {
        -1
    } else if m[0].name == name {
        0
    } else {
        let rest = bucket_index(m.drop_first(), name);
        if rest < 0 {
            -1
        } else {
            rest + 1
        }
    }
}

/// `bucket_index` returns exactly the first index whose bucket holds the
/// name, and -1 only when no bucket does.
pub proof fn lemma_bucket_index(m: Seq<BucketV>, name: Seq<char>)
    ensures
        bucket_index(m, name) < 0 ==> forall|j: int| 0 <= j < m.len() ==> m[j].name != name,
        bucket_index(m, name) >= 0 ==> bucket_index(m, name) < m.len() && m[bucket_index(
            m,
            name,
        )].name == name && forall|j: int| 0 <= j < bucket_index(m, name) ==> m[j].name != name,
    decreases m.len(),
{
    if m.len() > 0 && m[0].name != name {
        lemma_bucket_index(m.drop_first(), name);
        assert forall|j: int| 1 <= j < m.len() implies m.drop_first()[j - 1] == m[j] by {}
    }
}

/// A scan that found `name` first at `i` agrees with `bucket_index`.
pub proof fn lemma_bucket_index_is_first(m: Seq<BucketV>, name: Seq<char>, i: int)
    requires
        0 <= i < m.len(),
        m[i].name == name,
        forall|j: int| 0 <= j < i ==> m[j].name != name,
    ensures
        bucket_index(m, name) == i,
{
    lemma_bucket_index(m, name);
    let k = bucket_index(m, name);
    if k < 0 {
    } else if k < i {
    } else if k > i {
    }
}

/// A scan that found no bucket with `name` agrees with `bucket_index`.
pub proof fn lemma_bucket_index_none(m: Seq<BucketV>, name: Seq<char>)
    requires
        forall|j: int| 0 <= j < m.len() ==> m[j].name != name,
    ensures
        bucket_index(m, name) == -1,
{
    lemma_bucket_index(m, name);
}

/// Whether some declaration in the bucket redeclares `d` (same name, same
/// scope).
pub open spec fn bucket_has_binding(b: Seq<DeclV>, d: DeclV) -> bool {
    exists|i: int| 0 <= i < b.len() && #[trigger] same_binding(b[i], d)
}

/// Whether scope `a` is strictly inner to scope `b`: any scope is inner to
/// module level, and of two block scopes the one starting later is inner.
/// (Of two blocks that both contain a position, the one starting later is
/// the nested one.)
pub open spec fn scope_inner_than(a: Option<Range>, b: Option<Range>) -> bool {
    match (a, b) {
        (Some(sa), Some(sb)) => sb.start.is_before(sa.start),
        (Some(_), None) => true,
        _ => false,
    }
}

/// The declaration that a reference resolves to, as an index into the
/// bucket, or -1 when none is visible: of the declarations visible at
/// `pos`, the one with the innermost enclosing scope wins; of two with the
/// same scope, the earlier-inserted one. This is the deterministic
/// innermost-enclosing-scope-wins rule for shadowed names.
pub open spec fn resolve_index(b: Seq<DeclV>, pos: Position) -> int
    decreases b.len(),
{
    if b.len() == 0 {
        -1
    } else {
        let prev = resolve_index(b.drop_last(), pos);
        let last = b.len() - 1;
        if decl_visible_at(b[last], pos) {
            if prev < 0 {
                last
            } else if scope_inner_than(b[last].scope, b[prev].scope) {
                last
            } else {
                prev
            }
        } else {
            prev
        }
    }
}

/// `resolve_index` finds a declaration exactly when one is visible, finds
/// a visible one, and never one whose scope is strictly outer to another
/// visible declaration's.
pub proof fn lemma_resolve_index(b: Seq<DeclV>, pos: Position)
    ensures
        resolve_index(b, pos) < 0 ==> forall|j: int|
            0 <= j < b.len() ==> !decl_visible_at(b[j], pos),
        resolve_index(b, pos) >= 0 ==> resolve_index(b, pos) < b.len() && decl_visible_at(
            b[resolve_index(b, pos)],
            pos,
        ) && forall|j: int|
            0 <= j < b.len() && decl_visible_at(#[trigger] b[j], pos) ==> !scope_inner_than(
                b[j].scope,
                b[resolve_index(b, pos)].scope,
            ),
    decreases b.len(),
{
    if b.len() > 0 {
        lemma_resolve_index(b.drop_last(), pos);
        assert forall|j: int| 0 <= j < b.len() - 1 implies b.drop_last()[j] == b[j] by {}
        let prev = resolve_index(b.drop_last(), pos);
        let r = resolve_index(b, pos);
        if r >= 0 {
            assert forall|j: int|
                0 <= j < b.len() && decl_visible_at(#[trigger] b[j], pos) implies !scope_inner_than(
                b[j].scope,
                b[r].scope,
            ) by {
                if j < b.len() - 1 {
                    assert(decl_visible_at(b.drop_last()[j], pos));
                }
            }
        }
    }
}

/// The preloaded declaration of the builtin at catalog index `i`.
pub open spec fn builtin_decl(i: int) -> DeclV {
    DeclV {
        name: builtin_names()[i],
        name_range: nil_range(),
        kind: KindV::Function(builtin_args()[i]),
        doc: Some(builtin_docs()[i]),
        used: true,
        range: nil_range(),
        scope: None,
        builtin: true,
        param: false,
    }
}

/// The table a fresh [`DeclarationMap`] holds: one single-declaration
/// bucket per builtin function, in catalog order.
pub open spec fn initial_map() -> Seq<BucketV> {
    Seq::new(builtin_names().len(), |i: int| BucketV {
        name: builtin_names()[i],
        decls: seq![builtin_decl(i)],
    })
}

/// What [`DeclarationMap::insert`] does: a new name opens a new bucket; an
/// existing redeclaration (same name and scope already present) is rejected
/// and the table is unchanged; otherwise the declaration is appended to its
/// name's bucket. The boolean is true exactly when the table changed.
pub open spec fn insert_spec(m: Seq<BucketV>, d: DeclV) -> (Seq<BucketV>, bool) {
    let k = bucket_index(m, d.name);
    if k < 0 {
        (m.push(BucketV { name: d.name, decls: seq![d] }), true)
    } else if bucket_has_binding(m[k].decls, d) {
        (m, false)
    } else {
        (m.update(k, BucketV { name: m[k].name, decls: m[k].decls.push(d) }), true)
    }
}

/// What [`DeclarationMap::get`] returns: of the name's declarations
/// visible at the position, the one with the innermost enclosing scope
/// ([`resolve_index`]), if any is visible at all.
pub open spec fn get_spec(m: Seq<BucketV>, name: Seq<char>, pos: Position) -> Option<DeclV> {
    let k = bucket_index(m, name);
    if k < 0 {
        None
    } else {
        let f = resolve_index(m[k].decls, pos);
        if f < 0 {
            None
        } else {
            Some(m[k].decls[f])
        }
    }
}

/// A declaration with its `used` flag set.
pub open spec fn mark_used(d: DeclV) -> DeclV {
    DeclV { used: true, ..d }
}

/// What [`DeclarationMap::get_mut`] does: resolve the name at the position
/// as [`get_spec`] does (innermost enclosing scope wins), and mark the
/// found declaration used. The boolean is true exactly when a declaration
/// was found.
pub open spec fn resolve_mark_spec(m: Seq<BucketV>, name: Seq<char>, pos: Position) -> (
    Seq<BucketV>,
    bool,
) {
    let k = bucket_index(m, name);
    if k < 0 {
        (m, false)
    } else {
        let f = resolve_index(m[k].decls, pos);
        if f < 0 {
            (m, false)
        } else {
            (
                m.update(
                    k,
                    BucketV { name: m[k].name, decls: m[k].decls.update(f, mark_used(m[k].decls[f])) },
                ),
                true,
            )
        }
    }
}

/// The single nearest declaration of one bucket applicable at `pos`: among
/// the visible ones, the declaration whose visibility range ends latest;
/// of two ending at the same position, the earlier-inserted one.
pub open spec fn nearest_spec(b: Seq<DeclV>, pos: Position) -> Option<DeclV>
    decreases b.len(),
{
    if b.len() == 0 {
        None
    } else {
        let prev = nearest_spec(b.drop_last(), pos);
        let d = b.last();
        if decl_visible_at(d, pos) {
            match prev {
                Some(p) => if d.range.end.is_after(p.range.end) {
                    Some(d)
                } else {
                    Some(p)
                },
                None => Some(d),
            }
        } else {
            prev
        }
    }
}

/// What [`DeclarationMap::get_declared_at`] returns: for each bucket in
/// table order, its nearest applicable declaration, if any.
pub open spec fn declared_at_spec(m: Seq<BucketV>, pos: Position) -> Seq<DeclV>
    decreases m.len(),
{
    if m.len() == 0 {
        seq![]
    } else {
        declared_at_spec(m.drop_last(), pos) + match nearest_spec(m.last().decls, pos) {
            Some(d) => seq![d],
            None => Seq::<DeclV>::empty(),
        }
    }
}

/// The declarations of one bucket whose `used` flag is still clear, in
/// insertion order.
pub open spec fn unused_in(b: Seq<DeclV>) -> Seq<DeclV>
    decreases b.len(),
{
    if b.len() == 0 {
        seq![]
    } else {
        unused_in(b.drop_last()) + if !b.last().used {
            seq![b.last()]
        } else {
            Seq::<DeclV>::empty()
        }
    }
}

/// What [`DeclarationMap::get_unused`] returns: every still-unused
/// declaration, bucket by bucket in table order.
pub open spec fn unused_spec(m: Seq<BucketV>) -> Seq<DeclV>
    decreases m.len(),
{
    if m.len() == 0 {
        seq![]
    } else {
        unused_spec(m.drop_last()) + unused_in(m.last().decls)
    }
}

/// The symbol table: declarations keyed by name, each name owning the list
/// of its declarations in insertion order. Seeded at construction with one
/// declaration per builtin function.
#[derive(Debug, Clone)]
pub struct DeclarationMap {
    buckets: Vec<Bucket>,
}

impl View for DeclarationMap {
    type V = Seq<BucketV>;

    closed spec fn view(&self) -> Seq<BucketV> {
        self.buckets@.map_values(|b: Bucket| b@)
    }
}

impl DeclarationMap {
    /// A fresh table holding exactly the builtin declarations.
    pub fn new() -> (r: DeclarationMap)
        ensures
            r@ == initial_map(),
    {
        let fns = builtin_functions();
        let mut buckets: Vec<Bucket> = Vec::new();
        let mut i: usize = 0;
        while i < fns.len()
            invariant
                i <= fns@.len(),
                fns@.len() == builtin_names().len(),
                builtin_args().len() == builtin_names().len(),
                builtin_docs().len() == builtin_names().len(),
                forall|j: int| 0 <= j < fns@.len() ==> #[trigger] fns@[j]@.name == builtin_names()[j],
                forall|j: int| 0 <= j < fns@.len() ==> #[trigger] fns@[j]@.args == builtin_args()[j],
                forall|j: int| 0 <= j < fns@.len() ==> #[trigger] fns@[j]@.doc == builtin_docs()[j],
                buckets@.len() == i,
                forall|j: int|
                    0 <= j < i ==> #[trigger] buckets@[j]@ == (BucketV {
                        name: builtin_names()[j],
                        decls: seq![builtin_decl(j)],
                    }),
            decreases fns@.len() - i,
        {
            let d = Declaration::from_builtin(&fns[i]);
            let mut ds: Vec<Declaration> = Vec::new();
            ds.push(d);
            let name = fns[i].name.clone();
            proof {
                assert(decls_view(ds@) =~= seq![builtin_decl(i as int)]);
            }
            buckets.push(Bucket { name, decls: ds });
            i += 1;
        }
        let r = DeclarationMap { buckets };
        proof {
            assert(r@ =~= initial_map());
        }
        r
    }

    /// The index of the first bucket holding `name`, if any.
    fn find_bucket(&self, name: &String) -> (r: Option<usize>)
        ensures
            match r {
                Some(i) => i < self@.len() && bucket_index(self@, name@) == i as int,
                None => bucket_index(self@, name@) == -1,
            },
    {
        let mut i: usize = 0;
        let n = self.buckets.len();
        while i < n
            invariant
                n == self@.len(),
                i <= n,
                forall|j: int| 0 <= j < i ==> self@[j].name != name@,
            decreases n - i,
        {
            if self.buckets[i].name == *name {
                proof {
                    lemma_bucket_index_is_first(self@, name@, i as int);
                }
                return Some(i);
            }
            i += 1;
        }
        proof {
            lemma_bucket_index_none(self@, name@);
        }
        None
    }

    /// Inserts a declaration. Returns false, leaving the table unchanged,
    /// exactly when the bucket of the declaration's name already holds a
    /// declaration with the same name and scope; otherwise appends it (to
    /// its name's bucket, or to a fresh bucket for a fresh name) and
    /// returns true.
    pub fn insert(&mut self, value: Declaration) -> (r: bool)
        ensures
            final(self)@ == insert_spec(old(self)@, value@).0,
            r == insert_spec(old(self)@, value@).1,
    {
        let ghost m0 = self@;
        match self.find_bucket(&value.name) {
            None => {
                let mut ds: Vec<Declaration> = Vec::new();
                let ghost dv = value@;
                let name = value.name.clone();
                ds.push(value);
                proof {
                    assert(decls_view(ds@) =~= seq![dv]);
                }
                self.buckets.push(Bucket { name, decls: ds });
                proof {
                    assert(self@ =~= m0.push(BucketV { name: dv.name, decls: seq![dv] }));
                }
                true
            },
            Some(i) => {
                let ghost k = bucket_index(m0, value@.name);
                let mut j: usize = 0;
                let blen = self.buckets[i].decls.len();
                while j < blen
                    invariant
                        i < self.buckets@.len(),
                        blen == self.buckets@[i as int].decls@.len(),
                        j <= blen,
                        self@ == m0,
                        m0 == old(self)@,
                        i as int == k,
                        k == bucket_index(m0, value@.name),
                        0 <= k < m0.len(),
                        forall|l: int|
                            0 <= l < j ==> !#[trigger] same_binding(m0[k].decls[l], value@),
                    decreases blen - j,
                {
                    if self.buckets[i].decls[j] == value {
                        proof {
                            assert(same_binding(m0[k].decls[j as int], value@));
                            assert(bucket_has_binding(m0[k].decls, value@));
                        }
                        return false;
                    }
                    j += 1;
                }
                proof {
                    assert(!bucket_has_binding(m0[k].decls, value@));
                }
                let ghost dv = value@;
                let mut b = self.buckets.remove(i);
                b.decls.push(value);
                self.buckets.insert(i, b);
                proof {
                    assert(self@[k].decls =~= m0[k].decls.push(dv));
                    assert(self@[k] =~= (BucketV { name: m0[k].name, decls: m0[k].decls.push(dv) }));
                    assert(self@ =~= m0.update(
                        k,
                        BucketV { name: m0[k].name, decls: m0[k].decls.push(dv) },
                    ));
                }
                true
            },
        }
    }

    /// Looks up the declaration that an identifier use resolves to: of the
    /// identifier's name's declarations visible at the use's end position,
    /// the one with the innermost enclosing scope.
    pub fn get(&self, identifer: &Identifier) -> (r: Option<&Declaration>)
        ensures
            match r {
                Some(d) => get_spec(self@, identifer@.name, identifer@.range.end) == Some(d@),
                None => get_spec(self@, identifer@.name, identifer@.range.end) is None,
            },
    {
        match self.find_bucket(&identifer.name) {
            None => None,
            Some(i) => {
                let ghost k = bucket_index(self@, identifer@.name);
                let ghost bv = self@[i as int].decls;
                let mut best: Option<usize> = None;
                let mut j: usize = 0;
                let blen = self.buckets[i].decls.len();
                while j < blen
                    invariant
                        i < self.buckets@.len(),
                        i as int == k,
                        k == bucket_index(self@, identifer@.name),
                        bv == self@[i as int].decls,
                        blen == self.buckets@[i as int].decls@.len(),
                        blen == bv.len(),
                        j <= blen,
                        match best {
                            Some(bi) => (bi as int) < j && resolve_index(
                                bv.take(j as int),
                                identifer@.range.end,
                            ) == bi as int,
                            None => resolve_index(bv.take(j as int), identifer@.range.end) == -1,
                        },
                    decreases blen - j,
                {
                    proof {
                        assert(bv.take(j + 1).drop_last() =~= bv.take(j as int));
                        assert(bv.take(j + 1).last() == bv[j as int]);
                        assert(bv[j as int] == self.buckets@[i as int].decls@[j as int]@);
                    }
                    if is_declaration_at(&self.buckets[i].decls[j], identifer.range.end) {
                        let replace = match best {
                            Some(bi) => scope_is_inner(
                                self.buckets[i].decls[j].scope,
                                self.buckets[i].decls[bi].scope,
                            ),
                            None => true,
                        };
                        if replace {
                            best = Some(j);
                        }
                    }
                    j += 1;
                }
                proof {
                    assert(bv.take(blen as int) =~= bv);
                }
                match best {
                    Some(bi) => Some(&self.buckets[i].decls[bi]),
                    None => None,
                }
            },
        }
    }

    /// Resolves an identifier use as [`DeclarationMap::get`] does and marks
    /// the found declaration used. Returns true exactly when one was found.
    pub fn get_mut(&mut self, identifer: &Identifier) -> (r: bool)
        ensures
            final(self)@ == resolve_mark_spec(old(self)@, identifer@.name, identifer@.range.end).0,
            r == resolve_mark_spec(old(self)@, identifer@.name, identifer@.range.end).1,
    {
        let ghost m0 = self@;
        let ghost pos = identifer@.range.end;
        match self.find_bucket(&identifer.name) {
            None => false,
            Some(i) => {
                let ghost k = bucket_index(m0, identifer@.name);
                let ghost bv = m0[i as int].decls;
                let mut best: Option<usize> = None;
                let mut j: usize = 0;
                let blen = self.buckets[i].decls.len();
                while j < blen
                    invariant
                        i < self.buckets@.len(),
                        self@ == m0,
                        m0 == old(self)@,
                        i as int == k,
                        k == bucket_index(m0, identifer@.name),
                        0 <= k < m0.len(),
                        pos == identifer@.range.end,
                        bv == m0[i as int].decls,
                        blen == self.buckets@[i as int].decls@.len(),
                        blen == bv.len(),
                        j <= blen,
                        match best {
                            Some(bi) => (bi as int) < j && resolve_index(bv.take(j as int), pos)
                                == bi as int,
                            None => resolve_index(bv.take(j as int), pos) == -1,
                        },
                    decreases blen - j,
                {
                    proof {
                        assert(bv.take(j + 1).drop_last() =~= bv.take(j as int));
                        assert(bv.take(j + 1).last() == bv[j as int]);
                        assert(bv[j as int] == self.buckets@[i as int].decls@[j as int]@);
                    }
                    if is_declaration_at(&self.buckets[i].decls[j], identifer.range.end) {
                        let replace = match best {
                            Some(bi) => scope_is_inner(
                                self.buckets[i].decls[j].scope,
                                self.buckets[i].decls[bi].scope,
                            ),
                            None => true,
                        };
                        if replace {
                            best = Some(j);
                        }
                    }
                    j += 1;
                }
                proof {
                    assert(bv.take(blen as int) =~= bv);
                }
                match best {
                    None => false,
                    Some(bi) => {
                        let mut b = self.buckets.remove(i);
                        let mut d = b.decls.remove(bi);
                        d.used = true;
                        b.decls.insert(bi, d);
                        self.buckets.insert(i, b);
                        proof {
                            assert(self@[k].decls =~= m0[k].decls.update(
                                bi as int,
                                mark_used(m0[k].decls[bi as int]),
                            ));
                            assert(self@[k] =~= (BucketV {
                                name: m0[k].name,
                                decls: m0[k].decls.update(
                                    bi as int,
                                    mark_used(m0[k].decls[bi as int]),
                                ),
                            }));
                            assert(self@ =~= m0.update(
                                k,
                                BucketV {
                                    name: m0[k].name,
                                    decls: m0[k].decls.update(
                                        bi as int,
                                        mark_used(m0[k].decls[bi as int]),
                                    ),
                                },
                            ));
                        }
                        true
                    },
                }
            },
        }
    }

    /// The nearest applicable declaration of one bucket at `position`:
    /// scans in insertion order, keeping the visible declaration whose
    /// range ends strictly latest.
    fn get_nearest(declarations: &Vec<Declaration>, position: Position) -> (r: Option<Declaration>)
        ensures
            match r {
                Some(d) => nearest_spec(decls_view(declarations@), position) == Some(d@),
                None => nearest_spec(decls_view(declarations@), position) is None,
            },
    {
        let ghost dv = decls_view(declarations@);
        let mut nearest: Option<Declaration> = None;
        let mut i: usize = 0;
        while i < declarations.len()
            invariant
                i <= declarations@.len(),
                dv == decls_view(declarations@),
                dv.len() == declarations@.len(),
                match nearest {
                    Some(d) => nearest_spec(dv.take(i as int), position) == Some(d@),
                    None => nearest_spec(dv.take(i as int), position) is None,
                },
            decreases declarations@.len() - i,
        {
            proof {
                assert(dv.take(i + 1).drop_last() =~= dv.take(i as int));
                assert(dv.take(i + 1).last() == dv[i as int]);
            }
            let decl = &declarations[i];
            if is_declaration_at(decl, position) {
                match &nearest {
                    Some(value) => {
                        if decl.range.end.after(&value.range.end) {
                            nearest = Some(decl.duplicate());
                        }
                    },
                    None => {
                        nearest = Some(decl.duplicate());
                    },
                }
            }
            i += 1;
        }
        proof {
            assert(dv.take(declarations@.len() as int) =~= dv);
        }
        nearest
    }

    /// The completion candidates at a position: for every name in table
    /// order, its nearest applicable declaration.
    pub fn get_declared_at(&self, position: Position) -> (r: Vec<Declaration>)
        ensures
            decls_view(r@) == declared_at_spec(self@, position),
    {
        let mut result: Vec<Declaration> = Vec::new();
        let mut i: usize = 0;
        while i < self.buckets.len()
            invariant
                i <= self@.len(),
                self@.len() == self.buckets@.len(),
                decls_view(result@) == declared_at_spec(self@.take(i as int), position),
            decreases self@.len() - i,
        {
            proof {
                assert(self@.take(i + 1).drop_last() =~= self@.take(i as int));
                assert(self@.take(i + 1).last() == self@[i as int]);
            }
            let ghost before = decls_view(result@);
            match Self::get_nearest(&self.buckets[i].decls, position) {
                Some(nearest) => {
                    let ghost nv = nearest@;
                    result.push(nearest);
                    proof {
                        assert(decls_view(result@) =~= before + seq![nv]);
                    }
                },
                None => {
                    proof {
                        assert(before + Seq::<DeclV>::empty() =~= before);
                    }
                },
            }
            i += 1;
        }
        proof {
            assert(self@.take(self@.len() as int) =~= self@);
        }
        result
    }

    /// Every declaration whose `used` flag is still clear, bucket by bucket
    /// in table order.
    pub fn get_unused(&self) -> (r: Vec<Declaration>)
        ensures
            decls_view(r@) == unused_spec(self@),
    {
        let mut unused: Vec<Declaration> = Vec::new();
        let mut i: usize = 0;
        while i < self.buckets.len()
            invariant
                i <= self@.len(),
                self@.len() == self.buckets@.len(),
                decls_view(unused@) == unused_spec(self@.take(i as int)),
            decreases self@.len() - i,
        {
            proof {
                assert(self@.take(i + 1).drop_last() =~= self@.take(i as int));
                assert(self@.take(i + 1).last() == self@[i as int]);
            }
            let ghost bv = self@[i as int].decls;
            let mut j: usize = 0;
            let blen = self.buckets[i].decls.len();
            while j < blen
                invariant
                    i < self.buckets@.len(),
                    blen == self.buckets@[i as int].decls@.len(),
                    bv == self@[i as int].decls,
                    bv.len() == blen,
                    j <= blen,
                    self@.len() == self.buckets@.len(),
                    decls_view(unused@) == unused_spec(self@.take(i as int)) + unused_in(
                        bv.take(j as int),
                    ),
                decreases blen - j,
            {
                proof {
                    assert(bv.take(j + 1).drop_last() =~= bv.take(j as int));
                    assert(bv.take(j + 1).last() == bv[j as int]);
                }
                let ghost before = decls_view(unused@);
                let decl = &self.buckets[i].decls[j];
                if !decl.used {
                    let ghost nv = decl@;
                    unused.push(decl.duplicate());
                    proof {
                        assert(decls_view(unused@) =~= before + seq![nv]);
                    }
                } else {
                    proof {
                        assert(before + Seq::<DeclV>::empty() =~= before);
                    }
                }
                j += 1;
            }
            proof {
                assert(bv.take(blen as int) =~= bv);
            }
            i += 1;
        }
        proof {
            assert(self@.take(self@.len() as int) =~= self@);
        }
        unused
    }
}

/// Redeclaration law: once a declaration is inserted, inserting any
/// declaration with the same name and the same scope fails and leaves the
/// table unchanged.
pub proof fn lemma_insert_redeclaration(m: Seq<BucketV>, d1: DeclV, d2: DeclV)
    requires
        insert_spec(m, d1).1,
        d2.name == d1.name,
        d2.scope == d1.scope,
    ensures
        !insert_spec(insert_spec(m, d1).0, d2).1,
        insert_spec(insert_spec(m, d1).0, d2).0 == insert_spec(m, d1).0,
{
    let m1 = insert_spec(m, d1).0;
    let k = bucket_index(m, d1.name);
    lemma_bucket_index(m, d1.name);
    if k < 0 {
        let nk = m.len() as int;
        assert(m1[nk].name == d1.name);
        assert(forall|j: int| 0 <= j < nk ==> m1[j] == m[j]);
        lemma_bucket_index_is_first(m1, d2.name, nk);
        assert(same_binding(m1[nk].decls[0], d2));
        assert(bucket_has_binding(m1[nk].decls, d2));
    } else {
        assert(forall|j: int| 0 <= j < m.len() && j != k ==> m1[j] == m[j]);
        assert(m1[k].name == d1.name);
        lemma_bucket_index_is_first(m1, d2.name, k);
        let last = m1[k].decls.len() - 1;
        assert(m1[k].decls[last] == d1);
        assert(same_binding(m1[k].decls[last], d2));
        assert(bucket_has_binding(m1[k].decls, d2));
    }
}

/// Pairwise-distinct bucket names: each name owns at most one bucket, so
/// [`DeclarationMap::get_declared_at`] offers at most one completion per
/// name.
pub open spec fn distinct_bucket_names(m: Seq<BucketV>) -> bool {
    forall|i: int, j: int| 0 <= i < j < m.len() ==> m[i].name != m[j].name
}

/// The builtin-seeded table keys each builtin name once.
pub proof fn lemma_initial_map_distinct()
    ensures
        distinct_bucket_names(initial_map()),
{
    reveal_strlit("print");
    reveal_strlit("readline");
    reveal_strlit("import");
    reveal_strlit("export");
    reveal_strlit("type_of");
    reveal_strlit("length");
    reveal_strlit("parse_number");
    reveal_strlit("sqrt");
    reveal_strlit("floor");
    reveal_strlit("round");
    reveal_strlit("ceil");
    reveal_strlit("pow");
    assert("print"@[0] != "floor"@[0]);
    assert("print"@[0] != "round"@[0]);
    assert("floor"@[0] != "round"@[0]);
    assert("import"@[0] != "export"@[0]);
    assert("import"@[0] != "length"@[0]);
    assert("export"@[0] != "length"@[0]);
    assert("sqrt"@[0] != "ceil"@[0]);
    assert forall|i: int, j: int|
        0 <= i < j < initial_map().len() implies initial_map()[i].name
        != initial_map()[j].name by {
        assert(initial_map()[i].name == builtin_names()[i]);
        assert(initial_map()[j].name == builtin_names()[j]);
    }
}

/// Inserting never makes two buckets share a name: a fresh name opens its
/// own bucket, and every other insert only extends an existing bucket.
pub proof fn lemma_insert_preserves_distinct(m: Seq<BucketV>, d: DeclV)
    requires
        distinct_bucket_names(m),
    ensures
        distinct_bucket_names(insert_spec(m, d).0),
{
    lemma_bucket_index(m, d.name);
    let k = bucket_index(m, d.name);
    let m1 = insert_spec(m, d).0;
    if k < 0 {
        assert forall|i: int, j: int| 0 <= i < j < m1.len() implies m1[i].name != m1[j].name by {
            if j == m1.len() - 1 {
                assert(m1[i].name == m[i].name);
                assert(m[i].name != d.name);
            } else {
                assert(m1[i].name == m[i].name && m1[j].name == m[j].name);
            }
        }
    } else if !bucket_has_binding(m[k].decls, d) {
        assert forall|i: int, j: int| 0 <= i < j < m1.len() implies m1[i].name != m1[j].name by {
            assert(m1[i].name == m[i].name && m1[j].name == m[j].name);
        }
    }
}

/// Hoisting law: a function declaration is visible at every position
/// outside its own header `[start, end)` — before the header's start or at
/// and after its end — wherever its scope admits the position at all. In
/// particular a function can be referenced before its textual declaration.
pub proof fn lemma_function_hoisting(d: DeclV, pos: Position)
    requires
        d.kind matches KindV::Function(_),
        pos.is_before(d.range.start) || !pos.is_before(d.range.end),
        match d.scope {
            Some(s) => pos.is_after(s.start) && pos.is_before(s.end),
            None => true,
        },
    ensures
        decl_visible_at(d, pos),
{
}

/// Sequential-visibility law: a variable is invisible at every position
/// that is not strictly after its declaring range — in particular inside
/// its own initializer.
pub proof fn lemma_variable_sequential(d: DeclV, pos: Position)
    requires
        d.kind == KindV::Variable,
        !pos.is_after(d.range.end),
    ensures
        !decl_visible_at(d, pos),
{
}

/// Scope-confinement law: a declaration with an enclosing scope is
/// invisible at every position not strictly inside that scope, whatever
/// its name or kind.
pub proof fn lemma_scope_confinement(d: DeclV, s: Range, pos: Position)
    requires
        d.scope == Some(s),
        !(pos.is_after(s.start) && pos.is_before(s.end)),
    ensures
        !decl_visible_at(d, pos),
{
}

/// Scope-confinement law at resolution level: a declaration confined to a
/// scope is never the one a reference outside that scope resolves to,
/// whatever else its bucket holds.
pub proof fn lemma_resolution_respects_scope(b: Seq<DeclV>, pos: Position, s: Range, i: int)
    requires
        0 <= i < b.len(),
        b[i].scope == Some(s),
        !(pos.is_after(s.start) && pos.is_before(s.end)),
    ensures
        resolve_index(b, pos) != i,
{
    lemma_scope_confinement(b[i], s, pos);
    lemma_resolve_index(b, pos);
}

/// Sequential-visibility law at resolution level: a variable is never the
/// one a reference resolves to at any position not strictly after its
/// declaring range — in particular inside its own initializer.
pub proof fn lemma_resolution_respects_order(b: Seq<DeclV>, pos: Position, i: int)
    requires
        0 <= i < b.len(),
        b[i].kind == KindV::Variable,
        !pos.is_after(b[i].range.end),
    ensures
        resolve_index(b, pos) != i,
{
    lemma_variable_sequential(b[i], pos);
    lemma_resolve_index(b, pos);
}

/// Everything the completion pass offers is some bucket's nearest
/// applicable declaration, and every bucket's nearest applicable
/// declaration is offered.
pub proof fn lemma_declared_at_exact(m: Seq<BucketV>, pos: Position)
    ensures
        forall|k: int|
            0 <= k < declared_at_spec(m, pos).len() ==> exists|b: int|
                0 <= b < m.len() && nearest_spec(#[trigger] m[b].decls, pos) == Some(
                    #[trigger] declared_at_spec(m, pos)[k],
                ),
        forall|b: int|
            0 <= b < m.len() && (#[trigger] nearest_spec(m[b].decls, pos)) is Some
                ==> declared_at_spec(m, pos).contains(nearest_spec(m[b].decls, pos)->Some_0),
    decreases m.len(),
{
    if m.len() > 0 {
        lemma_declared_at_exact(m.drop_last(), pos);
        assert forall|b: int| 0 <= b < m.len() - 1 implies m.drop_last()[b] == m[b] by {}
        let prev = declared_at_spec(m.drop_last(), pos);
        let whole = declared_at_spec(m, pos);
        assert forall|k: int|
            0 <= k < whole.len() implies exists|b: int|
            0 <= b < m.len() && nearest_spec(#[trigger] m[b].decls, pos) == Some(
                #[trigger] whole[k],
            ) by {
            if k < prev.len() {
                let b = choose|b: int|
                    0 <= b < m.drop_last().len() && nearest_spec(
                        #[trigger] m.drop_last()[b].decls,
                        pos,
                    ) == Some(prev[k]);
                assert(nearest_spec(m[b].decls, pos) == Some(whole[k]));
            } else {
                assert(nearest_spec(m[m.len() - 1].decls, pos) == Some(whole[k]));
            }
        }
        assert forall|b: int|
            0 <= b < m.len() && (#[trigger] nearest_spec(m[b].decls, pos)) is Some implies whole
            .contains(nearest_spec(m[b].decls, pos)->Some_0) by {
            let d = nearest_spec(m[b].decls, pos)->Some_0;
            if b == m.len() - 1 {
                assert(whole[whole.len() - 1] == d);
            } else {
                assert(nearest_spec(m.drop_last()[b].decls, pos) == Some(d));
                assert(prev.contains(d));
                let w = choose|w: int| 0 <= w < prev.len() && prev[w] == d;
                assert(whole[w] == d);
            }
        }
    }
}

/// Everything the unused pass reports is indeed unused.
pub proof fn lemma_unused_are_unused(b: Seq<DeclV>)
    ensures
        forall|k: int| 0 <= k < unused_in(b).len() ==> !(#[trigger] unused_in(b)[k]).used,
    decreases b.len(),
{
    if b.len() > 0 {
        lemma_unused_are_unused(b.drop_last());
    }
}

/// Every unused declaration is reported by the unused pass.
pub proof fn lemma_unused_complete(b: Seq<DeclV>, i: int)
    requires
        0 <= i < b.len(),
        !b[i].used,
    ensures
        unused_in(b).contains(b[i]),
    decreases b.len(),
{
    if i == b.len() - 1 {
        assert(unused_in(b).last() == b[i]);
    } else {
        lemma_unused_complete(b.drop_last(), i);
        let w = choose|w: int|
            0 <= w < unused_in(b.drop_last()).len() && unused_in(b.drop_last())[w] == b[i];
        assert(unused_in(b)[w] == b[i]);
    }
}

/// Everything the whole-table unused pass reports is indeed unused.
pub proof fn lemma_unused_spec_unused(m: Seq<BucketV>)
    ensures
        forall|k: int| 0 <= k < unused_spec(m).len() ==> !(#[trigger] unused_spec(m)[k]).used,
    decreases m.len(),
{
    if m.len() > 0 {
        lemma_unused_spec_unused(m.drop_last());
        lemma_unused_are_unused(m.last().decls);
    }
}

/// Nearest-match law, part one: the bucket scan returns a declaration
/// exactly when one is visible, it returns one of the bucket's visible
/// declarations, and no visible declaration ends after the returned one.
pub proof fn lemma_nearest_is_applicable(b: Seq<DeclV>, pos: Position)
    ensures
        (nearest_spec(b, pos) is Some) <==> exists|i: int|
            0 <= i < b.len() && decl_visible_at(#[trigger] b[i], pos),
        nearest_spec(b, pos) matches Some(d) ==> decl_visible_at(d, pos) && exists|i: int|
            0 <= i < b.len() && #[trigger] b[i] == d,
        nearest_spec(b, pos) matches Some(d) ==> forall|i: int|
            0 <= i < b.len() && decl_visible_at(#[trigger] b[i], pos)
                ==> !b[i].range.end.is_after(d.range.end),
    decreases b.len(),
{
    if b.len() > 0 {
        lemma_nearest_is_applicable(b.drop_last(), pos);
        assert forall|j: int| 0 <= j < b.len() - 1 implies b.drop_last()[j] == b[j] by {}
        match nearest_spec(b, pos) {
            Some(d) => {
                if decl_visible_at(b.last(), pos) && d == b.last() {
                    assert(b[b.len() - 1] == d);
                } else {
                    assert(nearest_spec(b.drop_last(), pos) == Some(d));
                    let w = choose|w: int|
                        0 <= w < b.drop_last().len() && #[trigger] b.drop_last()[w] == d;
                    assert(b[w] == d);
                }
            },
            None => {},
        }
    }
}

/// Nearest-match law, part two: of two visible declarations of one name,
/// the scan never returns the one whose visibility range ends strictly
/// earlier — a shadowed outer declaration loses to the inner one.
pub proof fn lemma_nearest_picks_later(b: Seq<DeclV>, pos: Position, i: int, j: int)
    requires
        0 <= i < b.len(),
        0 <= j < b.len(),
        decl_visible_at(b[i], pos),
        decl_visible_at(b[j], pos),
        b[j].range.end.is_after(b[i].range.end),
    ensures
        nearest_spec(b, pos) is Some,
        nearest_spec(b, pos) matches Some(d) ==> d != b[i],
{
    lemma_nearest_is_applicable(b, pos);
    match nearest_spec(b, pos) {
        Some(d) => {
            assert(!b[j].range.end.is_after(d.range.end));
            if d == b[i] {
                assert(b[j].range.end.is_after(d.range.end));
            }
        },
        None => {},
    }
}

/// Builtins law: a fresh symbol table resolves every builtin name at every
/// position whatsoever, and the resolved declaration is a builtin already
/// marked used.
pub proof fn lemma_builtins_resolve(n: int, pos: Position)
    requires
        0 <= n < builtin_names().len(),
    ensures
        get_spec(initial_map(), builtin_names()[n], pos) matches Some(d) && d.builtin && d.used
            && d.name == builtin_names()[n],
{
    let m = initial_map();
    let name = builtin_names()[n];
    lemma_bucket_index(m, name);
    if bucket_index(m, name) < 0 {
        assert(m[n].name == name);
    }
    let k = bucket_index(m, name);
    assert(m[k] == (BucketV { name: builtin_names()[k], decls: seq![builtin_decl(k)] }));
    let d = builtin_decl(k);
    assert(!pos.is_before(crate::position::origin()));
    assert(decl_visible_at(d, pos));
    assert(m[k].decls.drop_last() =~= Seq::<DeclV>::empty());
    assert(resolve_index(Seq::<DeclV>::empty(), pos) == -1);
    assert(resolve_index(m[k].decls, pos) == 0);
}

} // verus!
