use vstd::prelude::*;

verus! {

/// Whether `ch` may continue an identifier although it is neither a letter nor a digit.
pub open spec fn is_permitted_id_character(ch: char) -> bool {
    ch == '_' || ch == '-'
}

/// The characters, besides letters and digits, that may continue an identifier:
/// the underscore and the hyphen, each once.
pub fn permitted_id_characters() -> (r: Vec<char>)
    ensures
        r@ == seq!['_', '-'],
        forall|ch: char| r@.contains(ch) <==> is_permitted_id_character(ch),
{
    let mut r: Vec<char> = Vec::new();
    r.push('_');
    r.push('-');
    proof {
        assert(r@ =~= seq!['_', '-']);
        assert(r@[0] == '_' && r@[1] == '-');
        assert forall|ch: char| r@.contains(ch) <==> is_permitted_id_character(ch) by {
            if is_permitted_id_character(ch) {
                assert(r@[0] == ch || r@[1] == ch);
            }
        }
    }
    r
}

} // verus!
