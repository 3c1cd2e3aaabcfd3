//! Configuration directives and first-match lookup among them.
//!
//! A directive is a named configuration instruction with a list of string
//! arguments, attached either to the whole enumeration or to one variant.
//! Wherever several directives share a name, the first one in declaration
//! order is the one that takes effect.

use vstd::prelude::*;

verus! {

/// One configuration instruction: a name such as `casing` or `alias`,
/// together with its string arguments.
pub struct Directive {
    pub name: String,
    pub args: Vec<String>,
}

/// The mathematical value of a [`Directive`]: its name and arguments as
/// sequences of characters.
pub ghost struct DirectiveView {
    pub name: Seq<char>,
    pub args: Seq<Seq<char>>,
}

impl View for Directive {
    type V = DirectiveView;

    open spec fn view(&self) -> DirectiveView {
        DirectiveView { name: self.name@, args: self.args.deep_view() }
    }
}

impl DeepView for Directive {
    type V = DirectiveView;

    open spec fn deep_view(&self) -> DirectiveView {
        self@
    }
}

impl Directive {
    /// A directive that takes no argument, such as `reject`.
    pub fn flag(name: &str) -> (d: Directive)
        ensures
            d@.name == name@,
            d@.args == Seq::<Seq<char>>::empty(),
    {
        Directive { name: name.to_owned(), args: Vec::new() }
    }

    /// A directive with exactly one argument, such as `casing = "kebab"`.
    pub fn with_arg(name: &str, arg: &str) -> (d: Directive)
        ensures
            d@.name == name@,
            d@.args == seq![arg@],
    {
        let mut args: Vec<String> = Vec::new();
        args.push(arg.to_owned());
        let d = Directive { name: name.to_owned(), args };
        proof {
            assert(d@.args =~= seq![arg@]);
        }
        d
    }
}

/// The first directive named `name`, if any.
pub open spec fn find_directive(ds: Seq<DirectiveView>, name: Seq<char>) -> Option<DirectiveView>
    decreases ds.len(),
{
    if ds.len() == 0 {
        None
    } else if ds[0].name == name {
        Some(ds[0])
    } else {
        find_directive(ds.drop_first(), name)
    }
}

/// Whether some directive in the list is named `name`.
pub open spec fn has_directive(ds: Seq<DirectiveView>, name: Seq<char>) -> bool {
    find_directive(ds, name) is Some
}

/// Whatever directive named `name` takes effect, if any, has exactly one
/// argument.  This is the shape under which its argument may be read.
pub open spec fn unary_shaped(ds: Seq<DirectiveView>, name: Seq<char>) -> bool {
    match find_directive(ds, name) {
        Some(d) => d.args.len() == 1,
        None => true,
    }
}

/// If the first `skip` directives are not named `name`, the search may
/// start after them.
proof fn lemma_find_directive_skip(ds: Seq<DirectiveView>, name: Seq<char>, skip: int)
    requires
        0 <= skip <= ds.len(),
        forall|k: int| 0 <= k < skip ==> ds[k].name != name,
    ensures
        find_directive(ds, name) == find_directive(ds.skip(skip), name),
    decreases skip,
{
    if skip > 0 {
        assert(ds.drop_first() =~= ds.skip(1));
        lemma_find_directive_skip(ds.skip(1), name, skip - 1);
        assert(ds.skip(1).skip(skip - 1) =~= ds.skip(skip));
    } else {
        assert(ds.skip(0) =~= ds);
    }
}

/// Whether two strings hold the same characters.
pub fn string_eq_str(a: &String, b: &str) -> (r: bool)
    ensures
        r == (a@ == b@),
{
    let bs: String = b.to_owned();
    *a == bs
}

/// A found directive stands somewhere in the list, under the sought name.
pub proof fn lemma_find_directive_witness(ds: Seq<DirectiveView>, name: Seq<char>) -> (k: int)
    requires
        find_directive(ds, name) is Some,
    ensures
        0 <= k < ds.len(),
        ds[k] == find_directive(ds, name)->0,
        ds[k].name == name,
    decreases ds.len(),
{
    if ds[0].name == name {
        0
    } else {
        let k0 = lemma_find_directive_witness(ds.drop_first(), name);
        assert(ds.drop_first()[k0] == ds[k0 + 1]);
        k0 + 1
    }
}

/// Whether two strings hold the same characters.
pub fn string_eq(a: &String, b: &String) -> (r: bool)
    ensures
        r == (a@ == b@),
{
    *a == *b
}

/// The first directive named `name`, searched in declaration order.
pub fn find_directive_in<'a>(ds: &'a Vec<Directive>, name: &str) -> (r: Option<&'a Directive>)
    ensures
        match r {
            Some(d) => find_directive(ds.deep_view(), name@) == Some(d@),
            None => find_directive(ds.deep_view(), name@) is None,
        },
{
    let ghost dsv = ds.deep_view();
    let mut i: usize = 0;
    while i < ds.len()
        invariant
            0 <= i <= ds.len(),
            dsv == ds.deep_view(),
            dsv.len() == ds.len(),
            forall|k: int| 0 <= k < i ==> dsv[k].name != name@,
        decreases ds.len() - i,
    {
        if string_eq_str(&ds[i].name, name) {
            proof {
                lemma_find_directive_skip(dsv, name@, i as int);
                assert(dsv.skip(i as int)[0] == dsv[i as int]);
            }
            return Some(&ds[i]);
        }
        i += 1;
    }
    proof {
        lemma_find_directive_skip(dsv, name@, i as int);
    }
    None
}

/// Whether some directive in the list is named `name`.
pub fn has_directive_in(ds: &Vec<Directive>, name: &str) -> (r: bool)
    ensures
        r == has_directive(ds.deep_view(), name@),
{
    match find_directive_in(ds, name) {
        Some(_) => true,
        None => false,
    }
}

} // verus!
