//! The syntax of the value mappings of a register map.
//!
//! A mapping is a list of operations separated by ASCII whitespace, such as
//! `"*0.1 -40"`. Each operation is an operator character (`+`, `-` or `*`)
//! followed by its operand. The operands are decimal fractions, which this
//! module leaves as text.
use vstd::prelude::*;

verus! {

/// Whether `c` is ASCII whitespace: space, tab, line feed, form feed or
/// carriage return.
pub open spec fn is_ascii_space(c: char) -> bool {
    c == ' ' || c == '\t' || c == '\n' || c == '\u{0C}' || c == '\r'
}

/// The words of `s` found so far, and the word being read at its end, when
/// `s` is read from left to right.
pub open spec fn scan_words(s: Seq<char>) -> (Seq<Seq<char>>, Seq<char>)
    decreases s.len(),
{
    if s.len() == 0 {
        (seq![], seq![])
    } else {
        let (words, current) = scan_words(s.drop_last());
        if !is_ascii_space(s.last()) {
            (words, current.push(s.last()))
        } else if current.len() == 0 {
            (words, current)
        } else {
            (words.push(current), seq![])
        }
    }
}

/// The words of `s`: its maximal runs of characters that are not ASCII
/// whitespace, in order.
pub open spec fn ascii_words(s: Seq<char>) -> Seq<Seq<char>> {
    let (words, current) = scan_words(s);
    if current.len() == 0 {
        words
    } else {
        words.push(current)
    }
}

/// The words of `s`, split at runs of ASCII whitespace, as
/// `str::split_ascii_whitespace` yields them.
pub fn split_words(s: &str) -> (words: Vec<String>)
    ensures
        words@.len() == ascii_words(s@).len(),
        forall|k: int| 0 <= k < words@.len() ==> #[trigger] words@[k]@ == ascii_words(s@)[k],
{
    broadcast use vstd::string::axiom_spec_iter;

    let n = s.unicode_len();
    let mut words: Vec<String> = Vec::new();
    let mut start: usize = 0;
    let mut i: usize = 0;
    for c in it: s.chars()
        invariant
            it.seq() == s@,
            n == s@.len(),
            i == it.index(),
            start <= i <= n,
            words@.len() == scan_words(s@.take(i as int)).0.len(),
            forall|k: int|
                0 <= k < words@.len() ==> #[trigger] words@[k]@ == scan_words(
                    s@.take(i as int),
                ).0[k],
            scan_words(s@.take(i as int)).1 == s@.subrange(start as int, i as int),
    {
        assert(s@.take(i + 1).drop_last() =~= s@.take(i as int));
        assert(s@.take(i + 1).last() == c);
        if c == ' ' || c == '\t' || c == '\n' || c == '\u{0C}' || c == '\r' {
            if start < i {
                words.push(s.substring_char(start, i).to_owned());
            }
            start = i + 1;
        } else {
            assert(s@.subrange(start as int, i + 1) =~= s@.subrange(start as int, i as int).push(c));
        }
        i += 1;
    }
    assert(s@.take(i as int) =~= s@);
    if start < i {
        words.push(s.substring_char(start, i).to_owned());
    }
    words
}

/// The arithmetic operator of a mapping operation.
#[derive(Clone, Copy, Debug, PartialEq, Eq, Structural)]
pub enum MappingOperator {
    /// `+`: add the operand.
    Add,
    /// `-`: add the negated operand.
    Subtract,
    /// `*`: multiply by the operand.
    Multiply,
}

/// The operator that the character `c` denotes, if any.
pub open spec fn mapping_operator(c: char) -> Option<MappingOperator> {
    if c == '+' {
        Some(MappingOperator::Add)
    } else if c == '-' {
        Some(MappingOperator::Subtract)
    } else if c == '*' {
        Some(MappingOperator::Multiply)
    } else {
        None
    }
}

/// Splits the mapping operation `op` into its first character, the operator
/// that character denotes (`None` for an unknown operation) and the text of
/// the operand that follows it; `None` for an empty `op`.
///
/// The first character must be ASCII: the operand starts at the second byte.
pub fn split_operation(op: &str) -> (r: Option<(char, Option<MappingOperator>, &str)>)
    requires
        op@.len() > 0 ==> (op@[0] as u32) < 128,
    ensures
        r is None <==> op@.len() == 0,
        r matches Some((c, operator, operand)) ==> {
            &&& c == op@[0]
            &&& operator == mapping_operator(c)
            &&& operand@ == op@.drop_first()
        },
{
    let n = op.unicode_len();
    if n == 0 {
        return None;
    }
    let c = op.get_char(0);
    let operator = if c == '+' {
        Some(MappingOperator::Add)
    } else if c == '-' {
        Some(MappingOperator::Subtract)
    } else if c == '*' {
        Some(MappingOperator::Multiply)
    } else {
        None
    };
    let operand = op.substring_char(1, n);
    assert(operand@ =~= op@.drop_first());
    Some((c, operator, operand))
}

} // verus!
