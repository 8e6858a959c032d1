//! A registry of custom error messages, each known by the number it was
//! given when it was defined.
use vstd::prelude::*;

verus! {

/// The messages defined so far, in the order they were defined.
pub struct ErrorRegistry {
    messages: Vec<String>,
}

impl View for ErrorRegistry {
    type V = Seq<Seq<char>>;

    closed spec fn view(&self) -> Seq<Seq<char>> {
        self.messages@.map_values(|m: String| m@)
    }
}

/// The message with number `n`, if there is one.
pub open spec fn lookup(messages: Seq<Seq<char>>, n: int) -> Option<Seq<char>> {
    if 0 <= n < messages.len() {
        Some(messages[n])
    } else {
        None
    }
}

impl ErrorRegistry {
    /// A registry with no messages.
    pub fn new() -> (r: Self)
        ensures
            r@ == Seq::<Seq<char>>::empty(),
    {
        let r = ErrorRegistry { messages: Vec::new() };
        assert(r@ =~= Seq::<Seq<char>>::empty());
        r
    }
}

/// Defines a new message, and gives the number it is known by: the number
/// of messages defined before it.
pub fn def_error(registry: &mut ErrorRegistry, msg: &str) -> (n: u32)
    ensures
        final(registry)@ == old(registry)@.push(msg@),
        n == old(registry)@.len() as u32,
{
    let n = registry.messages.len();
    let ghost before = registry@;
    registry.messages.push(String::from_str(msg));
    assert(registry@ =~= before.push(msg@));
    #[verifier::truncate]
    (n as u32)
}

/// The message with number `n`, if one was defined.
pub fn get_error(registry: &ErrorRegistry, n: u32) -> (r: Option<String>)
    ensures
        r is Some <==> lookup(registry@, n as int) is Some,
        r matches Some(m) ==> lookup(registry@, n as int) == Some(m@),
{
    let i = n as usize;
    if i < registry.messages.len() {
        Some(registry.messages[i].clone())
    } else {
        None
    }
}

/// A message, once defined, is what its number gives back, and defining it
/// changes what no earlier number gives.
pub proof fn law_get_after_def(before: Seq<Seq<char>>, msg: Seq<char>, k: int)
    requires
        before.len() < u32::MAX,
    ensures
        lookup(before.push(msg), (before.len() as u32) as int) == Some(msg),
        k != before.len() ==> lookup(before.push(msg), k) == lookup(before, k),
{
}

} // verus!
