//! What holds of the prefix form of every tree: it is fully parenthesized.

use crate::syntax::expr::{ast_text, joined, literal_value_text, parenthesized, ExprView};
use vstd::prelude::*;

verus! {

/// The depth of nesting behind `s`, read from depth `depth`: every `(` opens
/// a level and every `)` closes one. `None` where a `)` closes a level that
/// was never opened.
pub open spec fn nesting(s: Seq<char>, depth: int) -> Option<int>
    decreases s.len(),
{
    if s.len() == 0 {
        Some(depth)
    } else {
        match nesting(s.drop_last(), depth) {
            Some(d) => if s.last() == '(' {
                Some(d + 1)
            } else if s.last() == ')' {
                if d > 0 {
                    Some(d - 1)
                } else {
                    None
                }
            } else {
                Some(d)
            },
            None => None,
        }
    }
}

/// Whether the parentheses of `s` match in pairs.
pub open spec fn balanced(s: Seq<char>) -> bool {
    nesting(s, 0) == Some(0int)
}

/// The number of times that `c` occurs in `s`.
pub open spec fn count_char(s: Seq<char>, c: char) -> nat
    decreases s.len(),
{
    if s.len() == 0 {
        0
    } else {
        count_char(s.drop_last(), c) + if s.last() == c {
            1nat
        } else {
            0nat
        }
    }
}

/// Whether `s` holds no parenthesis.
pub open spec fn plain(s: Seq<char>) -> bool {
    forall|i: int| 0 <= i < s.len() ==> #[trigger] s[i] != '(' && s[i] != ')'
}

/// Whether no operator and no literal of `e` holds a parenthesis.
pub open spec fn plain_atoms(e: ExprView) -> bool
    decreases e,
{
    match e {
        ExprView::Binary { left, operator, right } => plain(operator.lexeme) && plain_atoms(*left)
            && plain_atoms(*right),
        ExprView::Unary { operator, right } => plain(operator.lexeme) && plain_atoms(*right),
        ExprView::Grouping { expression } => plain_atoms(*expression),
        ExprView::Literal { value } => plain(literal_value_text(value)),
    }
}

/// The number of nodes of `e` that are no literals.
pub open spec fn operations(e: ExprView) -> nat
    decreases e,
{
    match e {
        ExprView::Binary { left, right, .. } => 1 + operations(*left) + operations(*right),
        ExprView::Unary { right, .. } => 1 + operations(*right),
        ExprView::Grouping { expression } => 1 + operations(*expression),
        ExprView::Literal { .. } => 0,
    }
}

/// Nesting is read from left to right.
pub proof fn lemma_nesting_add(a: Seq<char>, b: Seq<char>, depth: int)
    ensures
        nesting(a + b, depth) == match nesting(a, depth) {
            Some(d) => nesting(b, d),
            None => None,
        },
    decreases b.len(),
{
    if b.len() == 0 {
        assert(a + b =~= a);
    } else {
        assert((a + b).drop_last() =~= a + b.drop_last());
        lemma_nesting_add(a, b.drop_last(), depth);
    }
}

/// Occurrences add up over concatenation.
pub proof fn lemma_count_char_add(a: Seq<char>, b: Seq<char>, c: char)
    ensures
        count_char(a + b, c) == count_char(a, c) + count_char(b, c),
    decreases b.len(),
{
    if b.len() == 0 {
        assert(a + b =~= a);
    } else {
        assert((a + b).drop_last() =~= a + b.drop_last());
        lemma_count_char_add(a, b.drop_last(), c);
    }
}

/// A text without parentheses leaves the depth as it is.
pub proof fn lemma_plain(s: Seq<char>, depth: int)
    requires
        plain(s),
    ensures
        nesting(s, depth) == Some(depth),
        count_char(s, '(') == 0,
        count_char(s, ')') == 0,
    decreases s.len(),
{
    if s.len() > 0 {
        assert(s.last() == s[s.len() - 1]);
        assert forall|i: int| 0 <= i < s.drop_last().len() implies #[trigger] s.drop_last()[i]
            != '(' && s.drop_last()[i] != ')' by {
            assert(s.drop_last()[i] == s[i]);
        }
        lemma_plain(s.drop_last(), depth);
    }
}

/// One character moves the depth by at most one level.
proof fn lemma_one_char(c: char, depth: int)
    ensures
        nesting(seq![c], depth) == if c == '(' {
            Some(depth + 1)
        } else if c == ')' {
            if depth > 0 {
                Some(depth - 1)
            } else {
                None
            }
        } else {
            Some(depth)
        },
        count_char(seq![c], '(') == if c == '(' {
            1nat
        } else {
            0nat
        },
        count_char(seq![c], ')') == if c == ')' {
            1nat
        } else {
            0nat
        },
{
    assert(seq![c].drop_last() =~= Seq::<char>::empty());
    assert(nesting(Seq::<char>::empty(), depth) == Some(depth));
    assert(count_char(Seq::<char>::empty(), '(') == 0);
    assert(count_char(Seq::<char>::empty(), ')') == 0);
    assert(seq![c].last() == c);
}

/// What a pair of parentheses around a plain name and one text that leaves
/// the depth as it is amounts to.
proof fn lemma_parenthesized_one(name: Seq<char>, a: Seq<char>, depth: int)
    requires
        0 <= depth,
        plain(name),
        nesting(a, depth + 1) == Some(depth + 1),
    ensures
        nesting(parenthesized(name, seq![a]), depth) == Some(depth),
        count_char(parenthesized(name, seq![a]), '(') == 1 + count_char(a, '('),
        count_char(parenthesized(name, seq![a]), ')') == 1 + count_char(a, ')'),
{
    let parts = seq![a];
    assert(parts.drop_last() =~= Seq::<Seq<char>>::empty());
    assert(joined(parts.drop_last()) =~= Seq::<char>::empty());
    assert(joined(parts) =~= seq![' '] + a);
    let text = parenthesized(name, parts);
    let open = seq!['('];
    let blank = seq![' '];
    let close = seq![')'];
    assert(text =~= open + name + blank + a + close);
    lemma_one_char('(', depth);
    lemma_one_char(' ', depth + 1);
    lemma_one_char(')', depth + 1);
    lemma_plain(name, depth + 1);
    lemma_nesting_add(open, name, depth);
    lemma_nesting_add(open + name, blank, depth);
    lemma_nesting_add(open + name + blank, a, depth);
    lemma_nesting_add(open + name + blank + a, close, depth);
    lemma_count_char_add(open, name, '(');
    lemma_count_char_add(open + name, blank, '(');
    lemma_count_char_add(open + name + blank, a, '(');
    lemma_count_char_add(open + name + blank + a, close, '(');
    lemma_count_char_add(open, name, ')');
    lemma_count_char_add(open + name, blank, ')');
    lemma_count_char_add(open + name + blank, a, ')');
    lemma_count_char_add(open + name + blank + a, close, ')');
}

/// What a pair of parentheses around a plain name and two texts that leave
/// the depth as it is amounts to.
proof fn lemma_parenthesized_two(name: Seq<char>, a: Seq<char>, b: Seq<char>, depth: int)
    requires
        0 <= depth,
        plain(name),
        nesting(a, depth + 1) == Some(depth + 1),
        nesting(b, depth + 1) == Some(depth + 1),
    ensures
        nesting(parenthesized(name, seq![a, b]), depth) == Some(depth),
        count_char(parenthesized(name, seq![a, b]), '(') == 1 + count_char(a, '(') + count_char(
            b,
            '(',
        ),
        count_char(parenthesized(name, seq![a, b]), ')') == 1 + count_char(a, ')') + count_char(
            b,
            ')',
        ),
{
    let parts = seq![a, b];
    assert(parts.drop_last() =~= seq![a]);
    assert(seq![a].drop_last() =~= Seq::<Seq<char>>::empty());
    assert(joined(seq![a].drop_last()) =~= Seq::<char>::empty());
    assert(joined(seq![a]) =~= seq![' '] + a);
    assert(joined(parts) =~= seq![' '] + a + seq![' '] + b);
    let text = parenthesized(name, parts);
    let open = seq!['('];
    let blank = seq![' '];
    let close = seq![')'];
    assert(text =~= open + name + blank + a + blank + b + close);
    lemma_one_char('(', depth);
    lemma_one_char(' ', depth + 1);
    lemma_one_char(')', depth + 1);
    lemma_plain(name, depth + 1);
    lemma_nesting_add(open, name, depth);
    lemma_nesting_add(open + name, blank, depth);
    lemma_nesting_add(open + name + blank, a, depth);
    lemma_nesting_add(open + name + blank + a, blank, depth);
    lemma_nesting_add(open + name + blank + a + blank, b, depth);
    lemma_nesting_add(open + name + blank + a + blank + b, close, depth);
    lemma_count_char_add(open, name, '(');
    lemma_count_char_add(open + name, blank, '(');
    lemma_count_char_add(open + name + blank, a, '(');
    lemma_count_char_add(open + name + blank + a, blank, '(');
    lemma_count_char_add(open + name + blank + a + blank, b, '(');
    lemma_count_char_add(open + name + blank + a + blank + b, close, '(');
    lemma_count_char_add(open, name, ')');
    lemma_count_char_add(open + name, blank, ')');
    lemma_count_char_add(open + name + blank, a, ')');
    lemma_count_char_add(open + name + blank + a, blank, ')');
    lemma_count_char_add(open + name + blank + a + blank, b, ')');
    lemma_count_char_add(open + name + blank + a + blank + b, close, ')');
}

/// The prefix form is fully parenthesized: where no operator and no literal
/// of `e` holds a parenthesis itself, the parentheses of the prefix form of
/// `e` match in pairs, at whatever depth the form is read, and there is
/// exactly one pair for every node of `e` that is no literal.
pub proof fn lemma_ast_text_parenthesized(e: ExprView, depth: int)
    requires
        plain_atoms(e),
        0 <= depth,
    ensures
        nesting(ast_text(e), depth) == Some(depth),
        count_char(ast_text(e), '(') == operations(e),
        count_char(ast_text(e), ')') == operations(e),
    decreases e,
{
    match e {
        ExprView::Binary { left, operator, right } => {
            lemma_ast_text_parenthesized(*left, depth + 1);
            lemma_ast_text_parenthesized(*right, depth + 1);
            lemma_parenthesized_two(operator.lexeme, ast_text(*left), ast_text(*right), depth);
        },
        ExprView::Unary { operator, right } => {
            lemma_ast_text_parenthesized(*right, depth + 1);
            lemma_parenthesized_one(operator.lexeme, ast_text(*right), depth);
        },
        ExprView::Grouping { expression } => {
            reveal_strlit("group");
            lemma_ast_text_parenthesized(*expression, depth + 1);
            lemma_parenthesized_one("group"@, ast_text(*expression), depth);
        },
        ExprView::Literal { value } => {
            lemma_plain(literal_value_text(value), depth);
        },
    }
}

/// The parentheses of the prefix form of a tree without parentheses in its
/// operators and literals match in pairs.
pub proof fn lemma_ast_text_balanced(e: ExprView)
    requires
        plain_atoms(e),
    ensures
        balanced(ast_text(e)),
        count_char(ast_text(e), '(') == operations(e),
        count_char(ast_text(e), ')') == operations(e),
{
    lemma_ast_text_parenthesized(e, 0);
}

} // verus!
