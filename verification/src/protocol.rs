//! What the interpreter is handed: a source fragment that declares the
//! buffer as an array, and the one-line directive that strikes it.

use crate::constraints::all_legal;
use crate::text::{
    decimal, lemma_newline_count_concat, lemma_numeral_single_line, lemma_single_line_count,
    newline_count, push_decimal, single_line, zero_padded,
};
use vstd::prelude::*;
use vstd::string::StringExecFns;

verus! {

/// The array's elements: each byte as a decimal literal followed by the
/// append operator, in the order of the buffer.
pub open spec fn data_cells(bytes: Seq<u8>) -> Seq<char>
    decreases bytes.len(),
{
    if bytes.len() == 0 {
        Seq::empty()
    } else {
        data_cells(bytes.drop_last()) + decimal(bytes.last() as nat) + " , "@
    }
}

/// The source fragment: a comment line, then the line that declares the
/// array.
pub open spec fn fragment_text(bytes: Seq<u8>) -> Seq<char> {
    "\\ Auto-generated strike data"@ + seq!['\n'] + "CREATE STRIKE-DATA "@ + data_cells(bytes)
        + seq!['\n']
}

/// The directive: the destination as a string literal, the opening word,
/// the array and its length, the striking word, the closing word, and the
/// end of the session.
pub open spec fn directive_text(destination: Seq<char>, count: nat) -> Seq<char> {
    "s\" "@ + destination + "\" strike-init STRIKE-DATA "@ + decimal(count)
        + " strike-sequence strike-close bye"@
}

/// Writes the source fragment for a buffer that has passed the strict gate.
pub fn data_fragment(bytes: &[u8]) -> (source: String)
    requires
        all_legal(bytes@),
    ensures
        source@ == fragment_text(bytes@),
{
    let mut source = String::from_str("\\ Auto-generated strike data");
    source.push('\n');
    source.append("CREATE STRIKE-DATA ");
    let ghost head = source@;
    let mut i: usize = 0;
    assert(bytes@.take(0) =~= Seq::<u8>::empty());
    assert(source@ =~= head + data_cells(bytes@.take(0)));
    while i < bytes.len()
        invariant
            i <= bytes@.len(),
            source@ == head + data_cells(bytes@.take(i as int)),
        decreases bytes@.len() - i,
    {
        push_decimal(&mut source, bytes[i] as usize);
        source.append(" , ");
        proof {
            assert(bytes@.take(i + 1).drop_last() =~= bytes@.take(i as int));
            assert(source@ =~= head + data_cells(bytes@.take(i + 1)));
        }
        i = i + 1;
    }
    assert(bytes@.take(i as int) =~= bytes@);
    source.push('\n');
    assert(source@ =~= fragment_text(bytes@));
    source
}

/// Writes the directive that strikes `count` bytes onto `destination`. The
/// destination is set between the quotes as it is.
pub fn execution_directive(destination: &str, count: usize) -> (directive: String)
    ensures
        directive@ == directive_text(destination@, count as nat),
{
    let mut directive = String::from_str("s\" ");
    directive.append(destination);
    directive.append("\" strike-init STRIKE-DATA ");
    push_decimal(&mut directive, count);
    directive.append(" strike-sequence strike-close bye");
    directive
}

/// The elements of the array stand on one line.
pub proof fn lemma_data_cells_single_line(bytes: Seq<u8>)
    ensures
        single_line(data_cells(bytes)),
    decreases bytes.len(),
{
    if bytes.len() > 0 {
        reveal_strlit(" , ");
        lemma_data_cells_single_line(bytes.drop_last());
        lemma_numeral_single_line(bytes.last() as nat, 10, false, 0);
        assert(decimal(bytes.last() as nat) =~= zero_padded(decimal(bytes.last() as nat), 0));
    }
}

/// The fragment has two lines, each ended by a newline: the comment, and
/// the declaration of the array.
pub proof fn lemma_fragment_two_lines(bytes: Seq<u8>)
    ensures
        newline_count(fragment_text(bytes)) == 2,
        fragment_text(bytes).last() == '\n',
{
    reveal_strlit("\\ Auto-generated strike data");
    reveal_strlit("CREATE STRIKE-DATA ");
    let comment = "\\ Auto-generated strike data"@;
    let declaration = "CREATE STRIKE-DATA "@ + data_cells(bytes);
    let newline = seq!['\n'];
    lemma_data_cells_single_line(bytes);
    lemma_single_line_count(comment);
    lemma_single_line_count(declaration);
    assert(newline.drop_last() =~= Seq::<char>::empty());
    assert(newline_count(Seq::<char>::empty()) == 0);
    assert(newline_count(newline) == 1);
    lemma_newline_count_concat(comment, newline);
    lemma_newline_count_concat(comment + newline, declaration);
    lemma_newline_count_concat(comment + newline + declaration, newline);
    assert(fragment_text(bytes) =~= comment + newline + declaration + newline);
}

/// The directive is one line, as long as the destination is.
pub proof fn lemma_directive_single_line(destination: Seq<char>, count: nat)
    requires
        single_line(destination),
    ensures
        single_line(directive_text(destination, count)),
{
    reveal_strlit("s\" ");
    reveal_strlit("\" strike-init STRIKE-DATA ");
    reveal_strlit(" strike-sequence strike-close bye");
    lemma_numeral_single_line(count, 10, false, 0);
    assert(decimal(count) =~= zero_padded(decimal(count), 0));
}

} // verus!
