//! Interned strings.
//!
//! Identifiers and string literals are kept once in a table and referred to
//! everywhere else by index, so tokens, syntax trees and runtime values stay
//! plain copyable data.  The table only ever grows; an index handed out stays
//! valid for the life of the interpreter.

use vstd::prelude::*;

verus! {

/// Relies on `<str as PartialEq>::eq`: string slices compare equal exactly
/// when their character contents are equal.
#[verifier::external_body]
pub(crate) fn str_eq(a: &str, b: &str) -> (r: bool)
    ensures
        r == (a@ == b@),
{
    a == b
}

/// Relies on `String::push`: appends the one character.
#[verifier::external_body]
pub(crate) fn push_char(s: &mut String, c: char)
    ensures
        final(s)@ == old(s)@.push(c),
{
    s.push(c)
}

pub struct StrTable {
    pub items: Vec<String>,
}

impl View for StrTable {
    type V = Seq<Seq<char>>;

    open spec fn view(&self) -> Seq<Seq<char>> {
        self.items@.map_values(|s: String| s@)
    }
}

/// Index of the first entry with the given contents, or the table's length
/// when no entry has them.
pub open spec fn find_str(tab: Seq<Seq<char>>, x: Seq<char>) -> int
    decreases tab.len(),
{
    if tab.len() == 0 {
        0
    } else if tab[0] == x {
        0
    } else {
        1 + find_str(tab.drop_first(), x)
    }
}

/// Interning at the mathematical level: the index of the entry with the
/// given contents, and the table afterwards (unchanged, or extended when the
/// contents were new).
pub open spec fn spec_intern(tab: Seq<Seq<char>>, x: Seq<char>) -> (int, Seq<Seq<char>>) {
    let i = find_str(tab, x);
    if i < tab.len() {
        (i, tab)
    } else {
        (tab.len() as int, tab.push(x))
    }
}

pub proof fn lemma_find_str(tab: Seq<Seq<char>>, x: Seq<char>)
    ensures
        0 <= find_str(tab, x) <= tab.len(),
        find_str(tab, x) < tab.len() ==> tab[find_str(tab, x)] == x,
        forall|i: int| 0 <= i < find_str(tab, x) ==> tab[i] != x,
    decreases tab.len(),
{
    if tab.len() > 0 && tab[0] != x {
        lemma_find_str(tab.drop_first(), x);
        assert forall|i: int| 0 <= i < find_str(tab, x) implies tab[i] != x by {
            if i > 0 {
                assert(tab.drop_first()[i - 1] == tab[i]);
            }
        }
    }
}

impl StrTable {
    pub fn new() -> (r: StrTable)
        ensures
            r@ == Seq::<Seq<char>>::empty(),
    {
        let r = StrTable { items: Vec::new() };
        proof {
            assert(r@ =~= Seq::<Seq<char>>::empty());
        }
        r
    }

    pub open spec fn spec_len(&self) -> nat {
        self@.len()
    }

    pub fn len(&self) -> (r: usize)
        ensures
            r == self.spec_len(),
    {
        self.items.len()
    }

    pub fn get(&self, i: usize) -> (r: &String)
        requires
            i < self@.len(),
        ensures
            r@ == self@[i as int],
    {
        &self.items[i]
    }

    /// Add a string that is known (or not required) to be new; returns its
    /// index.
    pub fn push(&mut self, s: String) -> (r: usize)
        ensures
            final(self)@ == old(self)@.push(s@),
            r == old(self)@.len(),
    {
        let r = self.items.len();
        self.items.push(s);
        proof {
            assert(final(self)@ =~= old(self)@.push(s@));
        }
        r
    }

    /// Intern: return the index of an existing equal entry, or append.
    pub fn intern(&mut self, s: String) -> (r: usize)
        ensures
            r == find_str(old(self)@, s@),
            r < old(self)@.len() ==> final(self)@ == old(self)@,
            r == old(self)@.len() ==> final(self)@ == old(self)@.push(s@),
            r < final(self)@.len(),
            final(self)@[r as int] == s@,
            (r as int, final(self)@) == spec_intern(old(self)@, s@),
    {
        proof {
            lemma_find_str(self@, s@);
        }
        let n = self.items.len();
        let mut i: usize = 0;
        while i < n
            invariant
                0 <= i <= n,
                n == self@.len(),
                forall|j: int| 0 <= j < i ==> self@[j] != s@,
                *self == *old(self),
            decreases n - i,
        {
            if str_eq(self.items[i].as_str(), s.as_str()) {
                proof {
                    lemma_find_str_prefix(self@, s@, i as int);
                }
                return i;
            }
            i += 1;
        }
        proof {
            assert(find_str(self@, s@) == self@.len()) by {
                lemma_find_str(self@, s@);
            }
        }
        self.push(s)
    }
}

proof fn lemma_find_str_prefix(tab: Seq<Seq<char>>, x: Seq<char>, i: int)
    requires
        0 <= i < tab.len(),
        tab[i] == x,
        forall|j: int| 0 <= j < i ==> tab[j] != x,
    ensures
        find_str(tab, x) == i,
    decreases i,
{
    if i > 0 {
        assert(tab.drop_first()[i - 1] == x);
        assert(forall|j: int| 0 <= j < i - 1 ==> tab.drop_first()[j] == tab[j + 1] && tab[j + 1]
            != x);
        lemma_find_str_prefix(tab.drop_first(), x, i - 1);
    }
}

} // verus!
