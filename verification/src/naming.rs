//! The names of the generated items.
//!
//! The storage type and the final builder are named after the record. Every
//! other builder state gets a fresh name: the record's name followed by a
//! random nonce. Such names carry no meaning of their own.

use vstd::prelude::*;

verus! {

/// Whether `c` is one of `0`..`9` or `a`..`f`.
pub open spec fn is_lower_hex(c: char) -> bool {
    ('0' <= c && c <= '9') || ('a' <= c && c <= 'f')
}

/// The shape of a hyphenated lower-case identifier: five groups of 8, 4, 4,
/// 4 and 12 hexadecimal digits, with a hyphen between neighbours.
pub open spec fn is_hyphenated_uuid(text: Seq<char>) -> bool {
    &&& text.len() == 36
    &&& forall|i: int|
        0 <= i < 36 ==> if i == 8 || i == 13 || i == 18 || i == 23 {
            text[i] == '-'
        } else {
            is_lower_hex(#[trigger] text[i])
        }
}

/// Whether `s` is made of 32 lower-case hexadecimal digits.
pub open spec fn is_nonce(s: Seq<char>) -> bool {
    &&& s.len() == 32
    &&& forall|i: int| 0 <= i < s.len() ==> is_lower_hex(#[trigger] s[i])
}

/// The predicate that keeps every character but the hyphen.
pub open spec fn not_hyphen() -> spec_fn(char) -> bool {
    |c: char| c != '-'
}

/// The name of the storage type of the record `struct_name`.
pub open spec fn container_name_of(struct_name: Seq<char>) -> Seq<char> {
    "__"@ + struct_name + "FieldsContainer"@
}

/// The name of the final builder of the record `struct_name`.
pub open spec fn final_builder_name_of(struct_name: Seq<char>) -> Seq<char> {
    "__"@ + struct_name + "FinalBuilder"@
}

/// The name of the setter of the field `field`.
pub open spec fn setter_name_of(field: Seq<char>) -> Seq<char> {
    "with_"@ + field
}

/// The name of a builder state of the record `struct_name`, made with `nonce`.
pub open spec fn state_name_of(struct_name: Seq<char>, nonce: Seq<char>) -> Seq<char> {
    "__"@ + struct_name + "_"@ + nonce
}

/// Whether `name` is the name of some builder state of `struct_name`: the
/// fixed prefix, then 32 hexadecimal digits.
pub open spec fn is_state_name(struct_name: Seq<char>, name: Seq<char>) -> bool {
    let prefix = "__"@ + struct_name + "_"@;
    &&& name.len() >= prefix.len()
    &&& name.take(prefix.len() as int) == prefix
    &&& is_nonce(name.skip(prefix.len() as int))
}

/// The generated names do not clash: a builder state is named neither like
/// the final builder nor like the storage type, and these two differ.
pub proof fn law_generated_names_differ(struct_name: Seq<char>, name: Seq<char>)
    requires
        is_state_name(struct_name, name),
    ensures
        name != final_builder_name_of(struct_name),
        name != container_name_of(struct_name),
        final_builder_name_of(struct_name) != container_name_of(struct_name),
{
    reveal_strlit("__");
    reveal_strlit("_");
    reveal_strlit("FinalBuilder");
    reveal_strlit("FieldsContainer");
    assert(final_builder_name_of(struct_name).len() == struct_name.len() + 14);
}

/// Draws a random identifier with `uuid::Uuid::new_v4` and writes it out as
/// the identifier's `Display` does: 32 lower-case hexadecimal digits in five
/// groups, separated by hyphens. Nothing is claimed about which digits come
/// out, nor that two calls differ. The call fails fatally where the operating
/// system hands out no random bytes.
#[verifier::external_body]
fn random_uuid_text() -> (text: String)
    ensures
        is_hyphenated_uuid(text@),
{
    uuid::Uuid::new_v4().to_string()
}

/// Copies `text` without its hyphens.
pub fn strip_hyphens(text: &str) -> (out: String)
    ensures
        out@ == text@.filter(not_hyphen()),
{
    let n: usize = text.unicode_len();
    let mut out = String::new();
    let mut i: usize = 0;
    proof {
        reveal(Seq::filter);
    }
    while i < n
        invariant
            i <= n,
            n == text@.len(),
            out@ == text@.take(i as int).filter(not_hyphen()),
        decreases n - i,
    {
        let c = text.get_char(i);
        proof {
            reveal(Seq::filter);
            assert(text@.take(i + 1).drop_last() == text@.take(i as int));
        }
        if c != '-' {
            let piece = text.substring_char(i, i + 1);
            out.append(piece);
        }
        i += 1;
    }
    assert(text@.take(n as int) == text@);
    out
}

/// A filter that every item passes keeps the sequence as it is.
proof fn lemma_filter_keeps_all(s: Seq<char>, pred: spec_fn(char) -> bool)
    requires
        forall|i: int| 0 <= i < s.len() ==> pred(#[trigger] s[i]),
    ensures
        s.filter(pred) == s,
    decreases s.len(),
{
    reveal(Seq::filter);
    if s.len() > 0 {
        lemma_filter_keeps_all(s.drop_last(), pred);
    }
}

/// A filter that an item does not pass drops it.
proof fn lemma_filter_drops_one(s: Seq<char>, pred: spec_fn(char) -> bool)
    requires
        s.len() == 1,
        !pred(s[0]),
    ensures
        s.filter(pred) == Seq::<char>::empty(),
{
    reveal(Seq::filter);
    assert(s.drop_last().filter(pred) == s.drop_last());
}

/// Without its hyphens, a hyphenated identifier is a nonce.
proof fn lemma_uuid_digits(text: Seq<char>)
    requires
        is_hyphenated_uuid(text),
    ensures
        is_nonce(text.filter(not_hyphen())),
{
    let keep = not_hyphen();
    let first = text.subrange(0, 8);
    let second = text.subrange(9, 13);
    let third = text.subrange(14, 18);
    let fourth = text.subrange(19, 23);
    let fifth = text.subrange(24, 36);
    let hyphen = text.subrange(8, 9);
    lemma_filter_keeps_all(first, keep);
    lemma_filter_keeps_all(second, keep);
    lemma_filter_keeps_all(third, keep);
    lemma_filter_keeps_all(fourth, keep);
    lemma_filter_keeps_all(fifth, keep);
    lemma_filter_drops_one(hyphen, keep);
    let upto_second = first + hyphen + second;
    let upto_third = upto_second + hyphen + third;
    let upto_fourth = upto_third + hyphen + fourth;
    assert(upto_fourth + hyphen + fifth =~= text);
    Seq::filter_distributes_over_add(first, hyphen, keep);
    Seq::filter_distributes_over_add(first + hyphen, second, keep);
    Seq::filter_distributes_over_add(upto_second, hyphen, keep);
    Seq::filter_distributes_over_add(upto_second + hyphen, third, keep);
    Seq::filter_distributes_over_add(upto_third, hyphen, keep);
    Seq::filter_distributes_over_add(upto_third + hyphen, fourth, keep);
    Seq::filter_distributes_over_add(upto_fourth, hyphen, keep);
    Seq::filter_distributes_over_add(upto_fourth + hyphen, fifth, keep);
    assert(text.filter(keep) =~= first + second + third + fourth + fifth);
}

/// A fresh nonce: the digits of a random identifier.
pub fn fresh_nonce() -> (nonce: String)
    ensures
        is_nonce(nonce@),
{
    let text = random_uuid_text();
    let nonce = strip_hyphens(text.as_str());
    proof {
        lemma_uuid_digits(text@);
    }
    nonce
}

/// The name of the storage type: `__`, the record's name, `FieldsContainer`.
pub fn container_name(struct_name: &str) -> (name: String)
    ensures
        name@ == container_name_of(struct_name@),
{
    let mut name = String::from_str("__");
    name.append(struct_name);
    name.append("FieldsContainer");
    name
}

/// The name of the final builder: `__`, the record's name, `FinalBuilder`.
pub fn final_builder_name(struct_name: &str) -> (name: String)
    ensures
        name@ == final_builder_name_of(struct_name@),
{
    let mut name = String::from_str("__");
    name.append(struct_name);
    name.append("FinalBuilder");
    name
}

/// The name of a field's setter: `with_`, then the field's name.
pub fn setter_name(field: &str) -> (name: String)
    ensures
        name@ == setter_name_of(field@),
{
    let mut name = String::from_str("with_");
    name.append(field);
    name
}

/// The name of a builder state: `__`, the record's name, `_`, the nonce.
pub fn state_name(struct_name: &str, nonce: &str) -> (name: String)
    ensures
        name@ == state_name_of(struct_name@, nonce@),
{
    let mut name = String::from_str("__");
    name.append(struct_name);
    name.append("_");
    name.append(nonce);
    name
}

/// A name for a builder state that is about to be generated.
pub fn fresh_state_name(struct_name: &str) -> (name: String)
    ensures
        is_state_name(struct_name@, name@),
{
    let nonce = fresh_nonce();
    let name = state_name(struct_name, nonce.as_str());
    proof {
        let prefix = "__"@ + struct_name@ + "_"@;
        assert(name@.take(prefix.len() as int) == prefix);
    }
    name
}

} // verus!
