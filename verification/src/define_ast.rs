//! The source text of an expression tree and its visitor, written out from
//! short descriptions such as `Binary : Box<Expr> left, Token operator,
//! Box<Expr> right`.
//!
//! Nothing here touches a file: `define_ast` returns the path and the text,
//! and the caller writes them.

use crate::text::{
    chars_of, lemma_span_end_bounds, lemma_span_end_unique, not_char, span_end, string_of,
};
use vstd::prelude::*;

verus! {

/// The lower-case form of a text, as `str::to_lowercase` gives it.
pub uninterp spec fn lowercase_of(text: Seq<char>) -> Seq<char>;

/// A text without the white space at its two ends, as `str::trim` gives it.
pub uninterp spec fn trimmed(text: Seq<char>) -> Seq<char>;

/// `str::to_lowercase`: the lower-case form of `text`, which depends on
/// `text` alone.
#[verifier::external_body]
fn to_lowercase(text: &str) -> (lower: String)
    ensures
        lower@ == lowercase_of(text@),
{
    text.to_lowercase()
}

/// `str::trim`: `text` without the white space at its two ends, which depends
/// on `text` alone.
#[verifier::external_body]
fn trim(text: &str) -> (inner: &str)
    ensures
        inner@ == trimmed(text@),
{
    text.trim()
}

/// The texts of `parts`, one behind the other.
pub open spec fn concat(parts: Seq<Seq<char>>) -> Seq<char>
    decreases parts.len(),
{
    if parts.len() == 0 {
        Seq::empty()
    } else {
        concat(parts.drop_last()) + parts.last()
    }
}

/// One more part is appended to the text of the parts before it.
pub proof fn lemma_concat_step(parts: Seq<Seq<char>>, i: int)
    requires
        0 <= i < parts.len(),
    ensures
        concat(parts.take(i + 1)) == concat(parts.take(i)) + parts[i],
        concat(parts.take(0)) == Seq::<char>::empty(),
        concat(parts.take(parts.len() as int)) == concat(parts),
{
    assert(parts.take(i + 1).drop_last() =~= parts.take(i));
    assert(parts.take(parts.len() as int) =~= parts);
}

/// The position of the first `c` in `s`; the length of `s` where there is
/// none.
pub open spec fn index_of_char(s: Seq<char>, c: char) -> int {
    span_end(s, 0, not_char(c))
}

/// Whether `c` occurs in `s`.
pub open spec fn has_char(s: Seq<char>, c: char) -> bool {
    index_of_char(s, c) < s.len()
}

/// What stands before the first `c` in `s`.
pub open spec fn before_first(s: Seq<char>, c: char) -> Seq<char> {
    s.take(index_of_char(s, c))
}

/// What stands behind the first `c` in `s`.
pub open spec fn after_first(s: Seq<char>, c: char) -> Seq<char> {
    s.skip(index_of_char(s, c) + 1)
}

/// The pieces of `s` between its occurrences of `c`: one more piece than
/// there are occurrences.
pub open spec fn split_on(s: Seq<char>, c: char) -> Seq<Seq<char>>
    decreases s.len(),
    via split_on_decreases
{
    if has_char(s, c) {
        seq![before_first(s, c)] + split_on(after_first(s, c), c)
    } else {
        seq![s]
    }
}

#[via_fn]
proof fn split_on_decreases(s: Seq<char>, c: char) {
    lemma_span_end_bounds(s, 0, not_char(c));
}

/// A kind of node: the name of the tree, the name of the kind, and its
/// fields, each written as its type, a blank and its name.
pub struct TreeType {
    pub base_name: String,
    pub class_name: String,
    pub fields: Vec<String>,
}

/// A kind of node as contracts see it.
pub struct TreeTypeView {
    pub base_name: Seq<char>,
    pub class_name: Seq<char>,
    pub fields: Seq<Seq<char>>,
}

impl View for TreeType {
    type V = TreeTypeView;

    open spec fn view(&self) -> TreeTypeView {
        TreeTypeView {
            base_name: self.base_name@,
            class_name: self.class_name@,
            fields: Seq::new(self.fields@.len(), |i: int| self.fields@[i]@),
        }
    }
}

/// The views of a sequence of kinds.
pub open spec fn tree_type_views(types: Seq<TreeType>) -> Seq<TreeTypeView> {
    Seq::new(types.len(), |i: int| types[i]@)
}

/// The name of the struct of a kind: `BinaryExpr`.
pub open spec fn full_name_text(t: TreeTypeView) -> Seq<char> {
    t.class_name + t.base_name
}

/// The name of a kind in snake case, made of the lower-case forms of its two
/// names: `binary_expr`.
pub open spec fn snake_name(class_lower: Seq<char>, base_lower: Seq<char>) -> Seq<char> {
    class_lower + "_"@ + base_lower
}

/// The line of one field in a struct.
pub open spec fn field_line(field: Seq<char>) -> Seq<char> {
    "\tpub "@ + after_first(field, ' ') + ": "@ + before_first(field, ' ') + ",\n"@
}

/// The lines of the fields of a struct.
pub open spec fn field_lines(fields: Seq<Seq<char>>) -> Seq<char> {
    concat(Seq::new(fields.len(), |i: int| field_line(fields[i])))
}

/// The struct of a kind.
pub open spec fn struct_text(t: TreeTypeView) -> Seq<char> {
    "pub struct "@ + full_name_text(t) + " {\n"@ + field_lines(t.fields) + "}\n\n"@
}

/// Whether every field of `t` has its type, a blank and its name.
pub open spec fn fields_have_names(t: TreeTypeView) -> bool {
    forall|i: int| 0 <= i < t.fields.len() ==> has_char(#[trigger] t.fields[i], ' ')
}

/// The names of a kind as the visitor is written with them.
pub struct TypeNames {
    pub class_name: String,
    pub full_name: String,
    pub lower_class: String,
    pub lower_base: String,
}

/// The names of a kind as contracts see them.
pub struct TypeNamesView {
    pub class_name: Seq<char>,
    pub full_name: Seq<char>,
    pub lower_class: Seq<char>,
    pub lower_base: Seq<char>,
}

impl View for TypeNames {
    type V = TypeNamesView;

    open spec fn view(&self) -> TypeNamesView {
        TypeNamesView {
            class_name: self.class_name@,
            full_name: self.full_name@,
            lower_class: self.lower_class@,
            lower_base: self.lower_base@,
        }
    }
}

/// The views of a sequence of names.
pub open spec fn names_views(names: Seq<TypeNames>) -> Seq<TypeNamesView> {
    Seq::new(names.len(), |i: int| names[i]@)
}

/// The names of a kind.
pub open spec fn names_of(t: TreeTypeView) -> TypeNamesView {
    TypeNamesView {
        class_name: t.class_name,
        full_name: full_name_text(t),
        lower_class: lowercase_of(t.class_name),
        lower_base: lowercase_of(t.base_name),
    }
}

/// The names of a sequence of kinds.
pub open spec fn all_names_of(types: Seq<TreeTypeView>) -> Seq<TypeNamesView> {
    Seq::new(types.len(), |i: int| names_of(types[i]))
}

/// The snake-case name of a kind.
pub open spec fn snake_of(n: TypeNamesView) -> Seq<char> {
    snake_name(n.lower_class, n.lower_base)
}

/// The declaration of the handler of one kind.
pub open spec fn visit_line(n: TypeNamesView) -> Seq<char> {
    "\tfn visit_"@ + n.lower_class + "_"@ + n.lower_base + "(&self, e: &"@ + n.full_name
        + ") -> T;\n"@
}

/// The arm of the walk over the tree for one kind.
pub open spec fn match_line(base: Seq<char>, n: TypeNamesView) -> Seq<char> {
    "\t\t\t"@ + base + "::"@ + n.class_name + "(e) => e.walk_"@ + snake_of(n) + "(v),\n"@
}

/// The walk of one kind.
pub open spec fn walk_impl(base: Seq<char>, n: TypeNamesView) -> Seq<char> {
    "impl "@ + n.full_name + " {\n"@ + "\tpub fn walk_"@ + snake_of(n) + "<T>(&self, v: &dyn "@
        + base + "Visitor<T>) -> T {\n"@ + "\t\tv.visit_"@ + snake_of(n) + "(self)\n"@
        + "\t}\n}\n\n"@
}

/// The declarations of the handlers.
pub open spec fn visit_lines(names: Seq<TypeNamesView>) -> Seq<char> {
    concat(Seq::new(names.len(), |i: int| visit_line(names[i])))
}

/// The arms of the walk over the tree.
pub open spec fn match_lines(base: Seq<char>, names: Seq<TypeNamesView>) -> Seq<char> {
    concat(Seq::new(names.len(), |i: int| match_line(base, names[i])))
}

/// The walks of the kinds.
pub open spec fn walk_impls(base: Seq<char>, names: Seq<TypeNamesView>) -> Seq<char> {
    concat(Seq::new(names.len(), |i: int| walk_impl(base, names[i])))
}

/// The visitor trait, the walk over the tree and the walks of the kinds, for
/// a tree called `base`, `base_lower` in lower case.
pub open spec fn visitor_text(
    base: Seq<char>,
    base_lower: Seq<char>,
    names: Seq<TypeNamesView>,
) -> Seq<char> {
    "pub trait "@ + base + "Visitor<T> {\n"@ + visit_lines(names) + "}\n\n"@ + "impl "@ + base
        + " {\n"@ + "\tpub fn walk_"@ + base_lower + "<T>(&self, v: &dyn "@ + base
        + "Visitor<T>) -> T {\n"@ + "\t\tmatch self {\n"@ + match_lines(base, names)
        + "\t\t}\n\t}\n}\n\n"@ + walk_impls(base, names)
}

/// The variant of one kind in the enum of the tree.
pub open spec fn variant_line(t: TreeTypeView) -> Seq<char> {
    "\t"@ + t.class_name + "("@ + full_name_text(t) + "),\n"@
}

/// The variants of the enum of the tree.
pub open spec fn variant_lines(types: Seq<TreeTypeView>) -> Seq<char> {
    concat(Seq::new(types.len(), |i: int| variant_line(types[i])))
}

/// The structs of the kinds.
pub open spec fn struct_texts(types: Seq<TreeTypeView>) -> Seq<char> {
    concat(Seq::new(types.len(), |i: int| struct_text(types[i])))
}

/// The whole source text of a tree called `base`.
pub open spec fn ast_text(
    base: Seq<char>,
    base_lower: Seq<char>,
    types: Seq<TreeTypeView>,
    names: Seq<TypeNamesView>,
) -> Seq<char> {
    "pub use crate::lexer::{Literal, Token};\n\n"@ + "pub enum "@ + base + " {\n"@
        + variant_lines(types) + "}\n\n"@ + struct_texts(types) + visitor_text(
        base,
        base_lower,
        names,
    )
}

/// The path of the source file of a tree whose name is `base_lower` in lower
/// case.
pub open spec fn path_text(output_dir: Seq<char>, base_lower: Seq<char>) -> Seq<char> {
    output_dir + "/"@ + base_lower + ".rs"@
}

/// The kind that a description such as `Binary : Box<Expr> left, Token
/// operator` stands for: its name is what stands before the first colon, its
/// fields are what stands between the commas behind it, each without the
/// white space around it.
pub open spec fn described_type(base: Seq<char>, description: Seq<char>) -> TreeTypeView {
    let pieces = split_on(after_first(description, ':'), ',');
    TreeTypeView {
        base_name: base,
        class_name: trimmed(before_first(description, ':')),
        fields: Seq::new(pieces.len(), |i: int| trimmed(pieces[i])),
    }
}

/// Whether `description` names a kind whose fields all have names.
pub open spec fn well_described(base: Seq<char>, description: Seq<char>) -> bool {
    has_char(description, ':') && fields_have_names(described_type(base, description))
}

/// The kinds that `descriptions` stand for.
pub open spec fn described_types(base: Seq<char>, descriptions: Seq<Seq<char>>) -> Seq<
    TreeTypeView,
> {
    Seq::new(descriptions.len(), |i: int| described_type(base, descriptions[i]))
}

/// The position of the first `c` in `v[from..]`, counted from the start of
/// `v`; the length of `v` where there is none.
fn find_char(v: &Vec<char>, from: usize, c: char) -> (at: usize)
    requires
        from <= v.len(),
    ensures
        from <= at <= v.len(),
        at - from == index_of_char(v@.skip(from as int), c),
{
    let mut at: usize = from;
    while at < v.len() && v[at] != c
        invariant
            from <= at <= v.len(),
            forall|j: int| from <= j < at ==> v@[j] != c,
        decreases v.len() - at,
    {
        at += 1;
    }
    proof {
        let rest = v@.skip(from as int);
        assert forall|j: int| 0 <= j < at - from implies not_char(c)(#[trigger] rest[j]) by {
            assert(rest[j] == v@[from + j]);
        }
        lemma_span_end_unique(rest, 0, at - from, not_char(c));
    }
    at
}

impl TreeType {
    /// The name of the struct of this kind.
    pub fn full_name(&self) -> (name: String)
        ensures
            name@ == full_name_text(self@),
    {
        let mut name = self.class_name.clone();
        name.append(self.base_name.as_str());
        name
    }

    /// The name of this kind in snake case.
    pub fn snake_case_full_name(&self) -> (name: String)
        ensures
            name@ == snake_name(lowercase_of(self.class_name@), lowercase_of(self.base_name@)),
    {
        let class_lower = to_lowercase(self.class_name.as_str());
        let base_lower = to_lowercase(self.base_name.as_str());
        snake_case(class_lower.as_str(), base_lower.as_str())
    }

    /// Whether every field has its type, a blank and its name.
    pub fn has_named_fields(&self) -> (yes: bool)
        ensures
            yes == fields_have_names(self@),
    {
        let mut i: usize = 0;
        while i < self.fields.len()
            invariant
                i <= self.fields.len(),
                forall|j: int| 0 <= j < i ==> has_char(#[trigger] self@.fields[j], ' '),
            decreases self.fields.len() - i,
        {
            let chars = chars_of(self.fields[i].as_str());
            let at: usize = find_char(&chars, 0, ' ');
            assert(chars@.skip(0) =~= chars@);
            assert(self@.fields[i as int] == chars@);
            if at == chars.len() {
                return false;
            }
            i += 1;
        }
        true
    }

    /// The struct of this kind: a line for every field, its name before its
    /// type.
    pub fn to_struct(&self) -> (text: String)
        requires
            fields_have_names(self@),
        ensures
            text@ == struct_text(self@),
    {
        let mut out = String::from_str("pub struct ");
        let name = self.full_name();
        out.append(name.as_str());
        out.append(" {\n");
        let ghost head = out@;
        let ghost lines = Seq::new(self@.fields.len(), |i: int| field_line(self@.fields[i]));
        assert(lines.take(0) =~= Seq::<Seq<char>>::empty());
        let mut i: usize = 0;
        while i < self.fields.len()
            invariant
                i <= self.fields.len(),
                fields_have_names(self@),
                lines == Seq::new(self@.fields.len(), |i: int| field_line(self@.fields[i])),
                out@ == head + concat(lines.take(i as int)),
            decreases self.fields.len() - i,
        {
            let chars = chars_of(self.fields[i].as_str());
            let at: usize = find_char(&chars, 0, ' ');
            proof {
                assert(chars@.skip(0) =~= chars@);
                assert(self@.fields[i as int] == chars@);
                assert(has_char(self@.fields[i as int], ' '));
                lemma_concat_step(lines, i as int);
            }
            let field_type = string_of(&chars, 0, at);
            let field_name = string_of(&chars, at + 1, chars.len());
            out.append("\tpub ");
            out.append(field_name.as_str());
            out.append(": ");
            out.append(field_type.as_str());
            out.append(",\n");
            proof {
                assert(chars@.subrange(0, at as int) =~= before_first(chars@, ' '));
                assert(chars@.subrange(at + 1, chars@.len() as int) =~= after_first(chars@, ' '));
                assert(out@ =~= head + concat(lines.take(i as int)) + field_line(chars@));
            }
            i += 1;
        }
        proof {
            assert(lines.take(i as int) =~= lines);
        }
        out.append("}\n\n");
        assert(out@ =~= struct_text(self@));
        out
    }

    /// The names of this kind as the visitor is written with them.
    pub fn names(&self) -> (names: TypeNames)
        ensures
            names@ == names_of(self@),
    {
        TypeNames {
            class_name: self.class_name.clone(),
            full_name: self.full_name(),
            lower_class: to_lowercase(self.class_name.as_str()),
            lower_base: to_lowercase(self.base_name.as_str()),
        }
    }
}

/// The snake-case name made of two names in lower case.
pub fn snake_case(class_lower: &str, base_lower: &str) -> (name: String)
    ensures
        name@ == snake_name(class_lower@, base_lower@),
{
    let mut name = String::from_str(class_lower);
    name.append("_");
    name.append(base_lower);
    name
}

/// The visitor of a tree called `base_name`, `base_lower` in lower case,
/// whose kinds have the names `names`.
pub fn visitor_source(base_name: &str, base_lower: &str, names: &Vec<TypeNames>) -> (text: String)
    ensures
        text@ == visitor_text(base_name@, base_lower@, names_views(names@)),
{
    let ghost views = names_views(names@);
    let ghost base = base_name@;
    let mut out = String::new();
    out.append("pub trait ");
    out.append(base_name);
    out.append("Visitor<T> {\n");
    let ghost head = out@;
    let ghost visits = Seq::new(views.len(), |i: int| visit_line(views[i]));
    assert(visits.take(0) =~= Seq::<Seq<char>>::empty());
    let mut i: usize = 0;
    while i < names.len()
        invariant
            i <= names.len(),
            views == names_views(names@),
            visits == Seq::new(views.len(), |i: int| visit_line(views[i])),
            out@ == head + concat(visits.take(i as int)),
        decreases names.len() - i,
    {
        let n: &TypeNames = &names[i];
        proof {
            lemma_concat_step(visits, i as int);
            assert(views[i as int] == n@);
        }
        out.append("\tfn visit_");
        out.append(n.lower_class.as_str());
        out.append("_");
        out.append(n.lower_base.as_str());
        out.append("(&self, e: &");
        out.append(n.full_name.as_str());
        out.append(") -> T;\n");
        assert(out@ =~= head + concat(visits.take(i as int)) + visit_line(n@));
        i += 1;
    }
    proof {
        assert(visits.take(i as int) =~= visits);
    }
    out.append("}\n\n");
    out.append("impl ");
    out.append(base_name);
    out.append(" {\n");
    out.append("\tpub fn walk_");
    out.append(base_lower);
    out.append("<T>(&self, v: &dyn ");
    out.append(base_name);
    out.append("Visitor<T>) -> T {\n");
    out.append("\t\tmatch self {\n");
    let ghost head = out@;
    let ghost arms = Seq::new(views.len(), |i: int| match_line(base, views[i]));
    assert(arms.take(0) =~= Seq::<Seq<char>>::empty());
    let mut i: usize = 0;
    while i < names.len()
        invariant
            i <= names.len(),
            views == names_views(names@),
            base == base_name@,
            arms == Seq::new(views.len(), |i: int| match_line(base, views[i])),
            out@ == head + concat(arms.take(i as int)),
        decreases names.len() - i,
    {
        let n: &TypeNames = &names[i];
        proof {
            lemma_concat_step(arms, i as int);
            assert(views[i as int] == n@);
        }
        let snake = snake_case(n.lower_class.as_str(), n.lower_base.as_str());
        out.append("\t\t\t");
        out.append(base_name);
        out.append("::");
        out.append(n.class_name.as_str());
        out.append("(e) => e.walk_");
        out.append(snake.as_str());
        out.append("(v),\n");
        assert(out@ =~= head + concat(arms.take(i as int)) + match_line(base, n@));
        i += 1;
    }
    proof {
        assert(arms.take(i as int) =~= arms);
    }
    out.append("\t\t}\n\t}\n}\n\n");
    let ghost head = out@;
    let ghost walks = Seq::new(views.len(), |i: int| walk_impl(base, views[i]));
    assert(walks.take(0) =~= Seq::<Seq<char>>::empty());
    let mut i: usize = 0;
    while i < names.len()
        invariant
            i <= names.len(),
            views == names_views(names@),
            base == base_name@,
            walks == Seq::new(views.len(), |i: int| walk_impl(base, views[i])),
            out@ == head + concat(walks.take(i as int)),
        decreases names.len() - i,
    {
        let n: &TypeNames = &names[i];
        proof {
            lemma_concat_step(walks, i as int);
            assert(views[i as int] == n@);
        }
        let snake = snake_case(n.lower_class.as_str(), n.lower_base.as_str());
        out.append("impl ");
        out.append(n.full_name.as_str());
        out.append(" {\n");
        out.append("\tpub fn walk_");
        out.append(snake.as_str());
        out.append("<T>(&self, v: &dyn ");
        out.append(base_name);
        out.append("Visitor<T>) -> T {\n");
        out.append("\t\tv.visit_");
        out.append(snake.as_str());
        out.append("(self)\n");
        out.append("\t}\n}\n\n");
        assert(out@ =~= head + concat(walks.take(i as int)) + walk_impl(base, n@));
        i += 1;
    }
    proof {
        assert(walks.take(i as int) =~= walks);
        assert(out@ =~= visitor_text(base, base_lower@, views));
    }
    out
}

/// The visitor of the tree called `base_name` with the kinds `tree_types`:
/// the trait with one handler for each kind, the walk over the tree, and the
/// walk of each kind.
pub fn define_visitor(base_name: String, tree_types: Vec<TreeType>) -> (text: String)
    ensures
        text@ == visitor_text(
            base_name@,
            lowercase_of(base_name@),
            all_names_of(tree_type_views(tree_types@)),
        ),
{
    let names = all_names(&tree_types);
    let base_lower = to_lowercase(base_name.as_str());
    visitor_source(base_name.as_str(), base_lower.as_str(), &names)
}

/// The names of every kind.
fn all_names(tree_types: &Vec<TreeType>) -> (names: Vec<TypeNames>)
    ensures
        names_views(names@) == all_names_of(tree_type_views(tree_types@)),
{
    let mut names: Vec<TypeNames> = Vec::new();
    let mut i: usize = 0;
    while i < tree_types.len()
        invariant
            i <= tree_types.len(),
            names@.len() == i,
            forall|j: int| 0 <= j < i ==> (#[trigger] names@[j])@ == names_of(tree_types@[j]@),
        decreases tree_types.len() - i,
    {
        names.push(tree_types[i].names());
        i += 1;
    }
    assert(names_views(names@) =~= all_names_of(tree_type_views(tree_types@)));
    names
}

/// The kind that `description` stands for; `None` where it holds no colon.
pub fn describe_type(base_name: &String, description: &str) -> (tree_type: Option<TreeType>)
    ensures
        tree_type is Some <==> has_char(description@, ':'),
        tree_type matches Some(t) ==> t@ == described_type(base_name@, description@),
{
    let chars = chars_of(description);
    let colon: usize = find_char(&chars, 0, ':');
    assert(chars@.skip(0) =~= chars@);
    if colon == chars.len() {
        return None;
    }
    let head = string_of(&chars, 0, colon);
    let class_name = String::from_str(trim(head.as_str()));
    let ghost raw = after_first(description@, ':');
    let ghost pieces = split_on(raw, ',');
    let mut fields: Vec<String> = Vec::new();
    let mut from: usize = colon + 1;
    proof {
        assert(chars@.subrange(0, colon as int) =~= before_first(description@, ':'));
        assert(chars@.skip(from as int) =~= raw);
    }
    loop
        invariant_except_break
            fields@.len() < pieces.len(),
            pieces.skip(fields@.len() as int) == split_on(chars@.skip(from as int), ','),
        invariant
            colon < chars.len(),
            colon + 1 <= from <= chars.len(),
            chars@ == description@,
            pieces == split_on(after_first(description@, ':'), ','),
            forall|j: int| 0 <= j < fields@.len() ==> (#[trigger] fields@[j])@ == trimmed(pieces[j]),
        ensures
            fields@.len() == pieces.len(),
            forall|j: int| 0 <= j < fields@.len() ==> (#[trigger] fields@[j])@ == trimmed(pieces[j]),
        decreases chars.len() - from,
    {
        let ghost rest = chars@.skip(from as int);
        let ghost done = fields@.len() as int;
        let comma: usize = find_char(&chars, from, ',');
        let piece = string_of(&chars, from, comma);
        proof {
            assert(chars@.subrange(from as int, comma as int) =~= before_first(rest, ','));
            assert(pieces.skip(done)[0] == split_on(rest, ',')[0]);
            assert(pieces[done] == piece@);
        }
        fields.push(String::from_str(trim(piece.as_str())));
        if comma == chars.len() {
            proof {
                assert(split_on(rest, ',').len() == 1);
                assert(pieces.skip(done).len() == 1);
            }
            break ;
        }
        proof {
            assert(rest.skip(comma - from + 1) =~= chars@.skip(comma + 1));
            assert(pieces.skip(done + 1) =~= pieces.skip(done).skip(1));
            assert(split_on(rest, ',').skip(1) =~= split_on(chars@.skip(comma + 1), ','));
            lemma_split_on_len(chars@.skip(comma + 1), ',');
        }
        from = comma + 1;
    }
    let tree_type = TreeType { base_name: base_name.clone(), class_name, fields };
    assert(tree_type@.fields =~= described_type(base_name@, description@).fields);
    Some(tree_type)
}

/// There is always at least one piece.
pub proof fn lemma_split_on_len(s: Seq<char>, c: char)
    ensures
        split_on(s, c).len() >= 1,
    decreases s.len(),
{
    if has_char(s, c) {
        lemma_span_end_bounds(s, 0, not_char(c));
        lemma_split_on_len(after_first(s, c), c);
    }
}

/// A source file: where it goes, and what it holds.
pub struct SourceFile {
    pub path: String,
    pub text: String,
}

/// The whole source text of a tree called `base_name`, `base_lower` in lower
/// case, with the kinds `tree_types`, whose names are `names`.
pub fn ast_source(
    base_name: &str,
    base_lower: &str,
    tree_types: &Vec<TreeType>,
    names: &Vec<TypeNames>,
) -> (text: String)
    requires
        forall|i: int|
            0 <= i < tree_types@.len() ==> fields_have_names((#[trigger] tree_types@[i])@),
    ensures
        text@ == ast_text(
            base_name@,
            base_lower@,
            tree_type_views(tree_types@),
            names_views(names@),
        ),
{
    let ghost types = tree_type_views(tree_types@);
    let mut out = String::new();
    out.append("pub use crate::lexer::{Literal, Token};\n\n");
    out.append("pub enum ");
    out.append(base_name);
    out.append(" {\n");
    let ghost head = out@;
    let ghost variants = Seq::new(types.len(), |i: int| variant_line(types[i]));
    assert(variants.take(0) =~= Seq::<Seq<char>>::empty());
    let mut i: usize = 0;
    while i < tree_types.len()
        invariant
            i <= tree_types.len(),
            types == tree_type_views(tree_types@),
            variants == Seq::new(types.len(), |i: int| variant_line(types[i])),
            out@ == head + concat(variants.take(i as int)),
        decreases tree_types.len() - i,
    {
        let t: &TreeType = &tree_types[i];
        proof {
            lemma_concat_step(variants, i as int);
            assert(types[i as int] == t@);
        }
        let full = t.full_name();
        out.append("\t");
        out.append(t.class_name.as_str());
        out.append("(");
        out.append(full.as_str());
        out.append("),\n");
        assert(out@ =~= head + concat(variants.take(i as int)) + variant_line(t@));
        i += 1;
    }
    proof {
        assert(variants.take(i as int) =~= variants);
    }
    out.append("}\n\n");
    let ghost head = out@;
    let ghost structs = Seq::new(types.len(), |i: int| struct_text(types[i]));
    assert(structs.take(0) =~= Seq::<Seq<char>>::empty());
    let mut i: usize = 0;
    while i < tree_types.len()
        invariant
            i <= tree_types.len(),
            types == tree_type_views(tree_types@),
            forall|i: int|
                0 <= i < tree_types@.len() ==> fields_have_names((#[trigger] tree_types@[i])@),
            structs == Seq::new(types.len(), |i: int| struct_text(types[i])),
            out@ == head + concat(structs.take(i as int)),
        decreases tree_types.len() - i,
    {
        let t: &TreeType = &tree_types[i];
        proof {
            lemma_concat_step(structs, i as int);
            assert(types[i as int] == t@);
        }
        let text = t.to_struct();
        out.append(text.as_str());
        i += 1;
    }
    proof {
        assert(structs.take(i as int) =~= structs);
    }
    let visitor = visitor_source(base_name, base_lower, names);
    out.append(visitor.as_str());
    assert(out@ =~= ast_text(base_name@, base_lower@, types, names_views(names@)));
    out
}

/// The source file of the tree called `base_name` whose kinds `types`
/// describe: its path below `output_dir`, and its text. `None` where a
/// description holds no colon or a field has no name.
pub fn define_ast(output_dir: String, base_name: String, types: Vec<String>) -> (file: Option<
    SourceFile,
>)
    ensures
        file is Some <==> forall|i: int|
            0 <= i < types@.len() ==> well_described(base_name@, (#[trigger] types@[i])@),
        file matches Some(f) ==> {
            &&& f.path@ == path_text(output_dir@, lowercase_of(base_name@))
            &&& f.text@ == ast_text(
                base_name@,
                lowercase_of(base_name@),
                described_types(base_name@, Seq::new(types@.len(), |i: int| types@[i]@)),
                all_names_of(
                    described_types(base_name@, Seq::new(types@.len(), |i: int| types@[i]@)),
                ),
            )
        },
{
    let base_lower = to_lowercase(base_name.as_str());
    let mut path = output_dir.clone();
    path.append("/");
    path.append(base_lower.as_str());
    path.append(".rs");
    let ghost descriptions = Seq::new(types@.len(), |i: int| types@[i]@);
    let mut tree_types: Vec<TreeType> = Vec::new();
    let mut i: usize = 0;
    while i < types.len()
        invariant
            i <= types.len(),
            tree_types@.len() == i,
            descriptions == Seq::new(types@.len(), |i: int| types@[i]@),
            forall|j: int|
                0 <= j < i ==> (#[trigger] tree_types@[j])@ == described_type(
                    base_name@,
                    types@[j]@,
                ),
            forall|j: int| 0 <= j < i ==> well_described(base_name@, (#[trigger] types@[j])@),
        decreases types.len() - i,
    {
        match describe_type(&base_name, types[i].as_str()) {
            Some(tree_type) => {
                if !tree_type.has_named_fields() {
                    assert(!well_described(base_name@, types@[i as int]@));
                    return None;
                }
                tree_types.push(tree_type);
            },
            None => {
                assert(!well_described(base_name@, types@[i as int]@));
                return None;
            },
        }
        i += 1;
    }
    let names = all_names(&tree_types);
    proof {
        assert(tree_type_views(tree_types@) =~= described_types(base_name@, descriptions));
    }
    let text = ast_source(base_name.as_str(), base_lower.as_str(), &tree_types, &names);
    Some(SourceFile { path, text })
}

} // verus!
