use vstd::prelude::*;

verus! {

/// The characters of `s` before the first occurrence of `d`.
pub open spec fn leading_segment(s: Seq<char>, d: char) -> Seq<char>
    decreases s.len(),
{
    if s.len() == 0 || s[0] == d {
        Seq::empty()
    } else {
        seq![s[0]] + leading_segment(s.drop_first(), d)
    }
}

/// The store key of a user: the user identifier under the `USER_` namespace.
pub open spec fn user_key_of(id: Seq<char>) -> Seq<char> {
    seq!['U', 'S', 'E', 'R', '_'] + id
}

/// Relies on String::push: appends one character to the string.
#[verifier::external_body]
fn push_char(s: &mut String, c: char)
    ensures
        final(s)@ == old(s)@.push(c),
{
    s.push(c)
}

/// The store key of the acting user named by a credential: the leading segment of
/// the token, up to the delimiter, namespaced. None when that segment is empty.
pub fn user_key(auth_token: &String, delimiter: char) -> (r: Option<String>)
    ensures
        r is None <==> leading_segment(auth_token@, delimiter).len() == 0,
        r matches Some(k) ==> k@ == user_key_of(leading_segment(auth_token@, delimiter)),
{
    let s = auth_token.as_str();
    let len = s.unicode_len();
    let mut key = String::new();
    push_char(&mut key, 'U');
    push_char(&mut key, 'S');
    push_char(&mut key, 'E');
    push_char(&mut key, 'R');
    push_char(&mut key, '_');
    let ghost t = auth_token@;
    assert(t.skip(0) =~= t);
    assert(key@ =~= user_key_of(t.take(0)));
    let mut i: usize = 0;
    while i < len && s.get_char(i) != delimiter
        invariant
            s@ == t,
            len == t.len(),
            i <= len,
            key@ == user_key_of(t.take(i as int)),
            leading_segment(t, delimiter) == t.take(i as int) + leading_segment(t.skip(i as int), delimiter),
        decreases len - i,
    {
        let c = s.get_char(i);
        push_char(&mut key, c);
        proof {
            assert(t.skip(i as int).drop_first() =~= t.skip(i + 1));
            assert(t.take(i + 1) =~= t.take(i as int) + seq![c]);
            assert(key@ =~= user_key_of(t.take(i + 1)));
            assert(t.take(i as int) + (seq![c] + leading_segment(t.skip(i + 1), delimiter))
                =~= t.take(i + 1) + leading_segment(t.skip(i + 1), delimiter));
        }
        i = i + 1;
    }
    assert(leading_segment(t.skip(i as int), delimiter).len() == 0);
    assert(leading_segment(t, delimiter) =~= t.take(i as int));
    if i == 0 {
        None
    } else {
        Some(key)
    }
}

} // verus!
