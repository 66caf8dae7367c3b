//! Identifiers of nodes, and paths made of them.
//!
//! A node is named by the identifiers on the way from the top level down to
//! it. Contracts speak of a path through the keys of its identifiers, which
//! are their deep views: two paths name the same node exactly when their keys
//! are equal.

use vstd::prelude::*;
use vstd::laws_eq::obeys_deep_eq;
use vstd::std_specs::cmp::PartialEqSpec;
use vstd::std_specs::cmp::PartialEqSpecImpl;
use vstd::string::StringExecFns;

verus! {

/// Whether `==` and `clone` of an identifier type go by the keys: equal
/// identifiers are those with equal keys, and a clone has the key of what
/// it was cloned from.
pub open spec fn lawful<Id: PartialEq + Clone + DeepView>() -> bool {
    &&& obeys_deep_eq::<Id>()
    &&& forall|a: Id, b: Id| #[trigger] cloned(a, b) ==> a.deep_view() == b.deep_view()
}

/// The keys of the identifiers of a path, in order.
pub open spec fn keys<Id: DeepView>(path: Seq<Id>) -> Seq<Id::V> {
    Seq::new(path.len(), |i: int| path[i].deep_view())
}

/// Whether two identifiers have the same key.
pub fn same_identifier<Id: PartialEq + Clone + DeepView>(a: &Id, b: &Id) -> (r: bool)
    requires
        lawful::<Id>(),
    ensures
        r == (a.deep_view() == b.deep_view()),
{
    proof {
        reveal(obeys_deep_eq);
    }
    let r = *a == *b;
    assert(r == a.eq_spec(b));
    r
}

/// A copy of an identifier, with the same key.
pub fn copy_identifier<Id: PartialEq + Clone + DeepView>(a: &Id) -> (r: Id)
    requires
        lawful::<Id>(),
    ensures
        r.deep_view() == a.deep_view(),
{
    let r = a.clone();
    assert(cloned(*a, r));
    r
}

/// Whether two paths name the same node.
pub fn same_path<Id: PartialEq + Clone + DeepView>(a: &[Id], b: &[Id]) -> (r: bool)
    requires
        lawful::<Id>(),
    ensures
        r == (keys(a@) == keys(b@)),
{
    if a.len() != b.len() {
        assert(keys(a@).len() != keys(b@).len());
        return false;
    }
    let mut i: usize = 0;
    while i < a.len()
        invariant
            lawful::<Id>(),
            a@.len() == b@.len(),
            i <= a@.len(),
            forall|j: int| 0 <= j < i ==> a@[j].deep_view() == b@[j].deep_view(),
        decreases a@.len() - i,
    {
        if !same_identifier(&a[i], &b[i]) {
            assert(keys(a@)[i as int] != keys(b@)[i as int]);
            return false;
        }
        i += 1;
    }
    assert(keys(a@) =~= keys(b@));
    true
}

/// A copy of a path, naming the same node.
pub fn copy_path<Id: PartialEq + Clone + DeepView>(path: &[Id]) -> (r: Vec<Id>)
    requires
        lawful::<Id>(),
    ensures
        keys(r@) == keys(path@),
{
    let mut r: Vec<Id> = Vec::new();
    let mut i: usize = 0;
    while i < path.len()
        invariant
            lawful::<Id>(),
            i <= path@.len(),
            r@.len() == i,
            forall|j: int| 0 <= j < i ==> r@[j].deep_view() == path@[j].deep_view(),
        decreases path@.len() - i,
    {
        r.push(copy_identifier(&path[i]));
        i += 1;
    }
    assert(keys(r@) =~= keys(path@));
    r
}

/// The path of a child: the parent's path, then the child's own identifier.
pub fn child_path<Id: PartialEq + Clone + DeepView>(parent: &[Id], child: &Id) -> (r: Vec<Id>)
    requires
        lawful::<Id>(),
    ensures
        keys(r@) == keys(parent@).push(child.deep_view()),
{
    let mut r = copy_path(parent);
    r.push(copy_identifier(child));
    assert(keys(r@) =~= keys(parent@).push(child.deep_view()));
    r
}

/// Selector which can be used as identifier for key value structures like
/// JSON: the key of an object's entry, the index of an array's element, or
/// nothing for a value that stands alone.
#[derive(Debug, Hash)]
pub enum Selector {
    ObjectKey(String),
    ArrayIndex(usize),
    Nothing,
}

/// What a [`Selector`] stands for.
pub enum SelectorKey {
    ObjectKey(Seq<char>),
    ArrayIndex(usize),
    Nothing,
}

impl DeepView for Selector {
    type V = SelectorKey;

    open spec fn deep_view(&self) -> SelectorKey {
        match *self {
            Selector::ObjectKey(key) => SelectorKey::ObjectKey(key@),
            Selector::ArrayIndex(index) => SelectorKey::ArrayIndex(index),
            Selector::Nothing => SelectorKey::Nothing,
        }
    }
}

impl View for Selector {
    type V = SelectorKey;

    open spec fn view(&self) -> SelectorKey {
        self.deep_view()
    }
}

impl PartialEq for Selector {
    fn eq(&self, other: &Self) -> (r: bool) {
        match self {
            Selector::ObjectKey(a) => match other {
                Selector::ObjectKey(b) => *a == *b,
                _ => false,
            },
            Selector::ArrayIndex(a) => match other {
                Selector::ArrayIndex(b) => *a == *b,
                _ => false,
            },
            Selector::Nothing => match other {
                Selector::Nothing => true,
                _ => false,
            },
        }
    }
}

impl PartialEqSpecImpl for Selector {
    open spec fn obeys_eq_spec() -> bool {
        true
    }

    open spec fn eq_spec(&self, other: &Self) -> bool {
        self.deep_view() == other.deep_view()
    }
}

impl Eq for Selector {

}

impl Clone for Selector {
    fn clone(&self) -> (r: Self)
        ensures
            r.deep_view() == self.deep_view(),
    {
        match self {
            Selector::ObjectKey(key) => Selector::ObjectKey(key.clone()),
            Selector::ArrayIndex(index) => Selector::ArrayIndex(*index),
            Selector::Nothing => Selector::Nothing,
        }
    }
}

impl Default for Selector {
    fn default() -> (r: Self)
        ensures
            r == Selector::Nothing,
    {
        Selector::Nothing
    }
}

/// A text as identifier.
#[derive(Debug, Hash)]
pub struct Label(pub String);

impl DeepView for Label {
    type V = Seq<char>;

    open spec fn deep_view(&self) -> Seq<char> {
        self.0@
    }
}

impl View for Label {
    type V = Seq<char>;

    open spec fn view(&self) -> Seq<char> {
        self.0@
    }
}

impl PartialEq for Label {
    fn eq(&self, other: &Self) -> (r: bool) {
        self.0 == other.0
    }
}

impl PartialEqSpecImpl for Label {
    open spec fn obeys_eq_spec() -> bool {
        true
    }

    open spec fn eq_spec(&self, other: &Self) -> bool {
        self.deep_view() == other.deep_view()
    }
}

impl Eq for Label {

}

impl Clone for Label {
    fn clone(&self) -> (r: Self)
        ensures
            r.deep_view() == self.deep_view(),
    {
        Label(self.0.clone())
    }
}

impl Label {
    /// The label of a text.
    pub fn new(text: &str) -> (r: Self)
        ensures
            r.deep_view() == text@,
    {
        Label(text.to_owned())
    }

    /// The text of the label.
    pub fn as_str(&self) -> (r: &str)
        ensures
            r@ == self.deep_view(),
    {
        self.0.as_str()
    }
}

/// `Label` is a lawful identifier type.
pub proof fn lemma_label_lawful()
    ensures
        lawful::<Label>(),
{
    reveal(obeys_deep_eq);
}

/// The decimal digit for a number below ten.
pub open spec fn digit(d: nat) -> char {
    if d == 0 {
        '0'
    } else if d == 1 {
        '1'
    } else if d == 2 {
        '2'
    } else if d == 3 {
        '3'
    } else if d == 4 {
        '4'
    } else if d == 5 {
        '5'
    } else if d == 6 {
        '6'
    } else if d == 7 {
        '7'
    } else if d == 8 {
        '8'
    } else {
        '9'
    }
}

/// A number written in decimal digits, without leading zeros.
pub open spec fn decimal(n: nat) -> Seq<char>
    decreases n,
{
    if n < 10 {
        seq![digit(n)]
    } else {
        decimal(n / 10).push(digit(n % 10))
    }
}

fn digit_text(d: usize) -> (r: &'static str)
    requires
        d < 10,
    ensures
        r@ == seq![digit(d as nat)],
{
    proof {
        reveal_strlit("0");
        reveal_strlit("1");
        reveal_strlit("2");
        reveal_strlit("3");
        reveal_strlit("4");
        reveal_strlit("5");
        reveal_strlit("6");
        reveal_strlit("7");
        reveal_strlit("8");
        reveal_strlit("9");
    }
    let r = if d == 0 {
        "0"
    } else if d == 1 {
        "1"
    } else if d == 2 {
        "2"
    } else if d == 3 {
        "3"
    } else if d == 4 {
        "4"
    } else if d == 5 {
        "5"
    } else if d == 6 {
        "6"
    } else if d == 7 {
        "7"
    } else if d == 8 {
        "8"
    } else {
        "9"
    };
    assert(r@ =~= seq![digit(d as nat)]);
    r
}

fn append_decimal(text: &mut String, n: usize)
    ensures
        final(text)@ == old(text)@ + decimal(n as nat),
    decreases n,
{
    if n >= 10 {
        append_decimal(text, n / 10);
    }
    text.append(digit_text(n % 10));
    assert(text@ =~= old(text)@ + decimal(n as nat));
}

impl SelectorKey {
    /// The text shown for the selector: the key itself, the index in
    /// decimal, or nothing.
    pub open spec fn text(self) -> Seq<char> {
        match self {
            SelectorKey::ObjectKey(key) => key,
            SelectorKey::ArrayIndex(index) => decimal(index as nat),
            SelectorKey::Nothing => Seq::empty(),
        }
    }
}

impl Selector {
    /// The text shown for the selector: the key itself, the index in
    /// decimal, or nothing.
    pub open spec fn text(self) -> Seq<char> {
        self.deep_view().text()
    }

    /// The selector as text.
    pub fn to_string(&self) -> (r: String)
        ensures
            r@ == self.text(),
    {
        match self {
            Selector::ObjectKey(key) => key.clone(),
            Selector::ArrayIndex(index) => {
                let mut text = String::new();
                append_decimal(&mut text, *index);
                assert(text@ =~= decimal(*index as nat));
                text
            },
            Selector::Nothing => String::new(),
        }
    }
}

/// `Selector` is a lawful identifier type.
pub proof fn lemma_selector_lawful()
    ensures
        lawful::<Selector>(),
{
    reveal(obeys_deep_eq);
}

/// `usize` is a lawful identifier type.
pub proof fn lemma_usize_lawful()
    ensures
        lawful::<usize>(),
{
    reveal(obeys_deep_eq);
}

} // verus!
