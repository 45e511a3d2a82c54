//! The language's reserved keywords and the catalog of builtin functions
//! that every symbol table is seeded with.

use vstd::prelude::*;

verus! {

/// The views of a sequence of owned strings, element by element.
pub open spec fn strings_view(v: Seq<String>) -> Seq<Seq<char>> {
    v.map_values(|s: String| s@)
}

/// The reserved keywords: none may be used as a declaration name.
pub open spec fn keyword_names() -> Seq<Seq<char>> {
    seq![
        "null"@,
        "true"@,
        "false"@,
        "set"@,
        "function"@,
        "lambda"@,
        "for"@,
        "in"@,
        "to"@,
        "while"@,
        "loop"@,
        "if"@,
        "else"@,
        "match"@,
    ]
}

/// The reserved keywords as owned strings, in the order of
/// [`keyword_names`].
pub fn keywords() -> (r: Vec<String>)
    ensures
        r@.len() == keyword_names().len(),
        forall|i: int| 0 <= i < r@.len() ==> #[trigger] r@[i]@ == keyword_names()[i],
{
    let mut r: Vec<String> = Vec::new();
    r.push("null".to_owned());
    r.push("true".to_owned());
    r.push("false".to_owned());
    r.push("set".to_owned());
    r.push("function".to_owned());
    r.push("lambda".to_owned());
    r.push("for".to_owned());
    r.push("in".to_owned());
    r.push("to".to_owned());
    r.push("while".to_owned());
    r.push("loop".to_owned());
    r.push("if".to_owned());
    r.push("else".to_owned());
    r.push("match".to_owned());
    r
}

/// Decides whether a name is one of the reserved keywords.
pub fn is_keyword(name: &String) -> (r: bool)
    ensures
        r == keyword_names().contains(name@),
{
    let kws = keywords();
    let mut i: usize = 0;
    while i < kws.len()
        invariant
            i <= kws.len(),
            kws@.len() == keyword_names().len(),
            forall|j: int| 0 <= j < kws@.len() ==> #[trigger] kws@[j]@ == keyword_names()[j],
            forall|j: int| 0 <= j < i ==> keyword_names()[j] != name@,
        decreases kws.len() - i,
    {
        if kws[i] == *name {
            assert(keyword_names()[i as int] == name@);
            return true;
        }
        i += 1;
    }
    false
}

/// Static metadata of one builtin function: its name, parameter names, and
/// markdown documentation.
#[derive(Debug, Clone)]
pub struct BuiltinFn {
    pub name: String,
    pub args: Vec<String>,
    pub doc: String,
}

/// Mathematical form of [`BuiltinFn`].
#[verifier::ext_equal]
pub ghost struct BuiltinV {
    pub name: Seq<char>,
    pub args: Seq<Seq<char>>,
    pub doc: Seq<char>,
}

impl View for BuiltinFn {
    type V = BuiltinV;

    open spec fn view(&self) -> BuiltinV {
        BuiltinV {
            name: self.name@,
            args: strings_view(self.args@),
            doc: self.doc@,
        }
    }
}

impl BuiltinFn {
    /// Builds one catalog entry from borrowed parts.
    pub fn new(name: &str, args: Vec<&str>, doc: &str) -> (r: BuiltinFn)
        ensures
            r@.name == name@,
            r@.doc == doc@,
            r@.args.len() == args@.len(),
            forall|i: int| 0 <= i < args@.len() ==> #[trigger] r@.args[i] == args@[i]@,
    {
        let mut owned_args: Vec<String> = Vec::new();
        let mut i: usize = 0;
        while i < args.len()
            invariant
                i <= args.len(),
                owned_args@.len() == i,
                forall|j: int| 0 <= j < i ==> #[trigger] owned_args@[j]@ == args@[j]@,
            decreases args.len() - i,
        {
            owned_args.push(args[i].to_owned());
            i += 1;
        }
        let r = BuiltinFn { name: name.to_owned(), args: owned_args, doc: doc.to_owned() };
        proof {
            assert(forall|j: int|
                0 <= j < args@.len() ==> #[trigger] r@.args[j] == owned_args@[j]@);
        }
        r
    }
}

/// The names of the builtin functions, in catalog order.
pub open spec fn builtin_names() -> Seq<Seq<char>> {
    seq![
        "print"@,
        "readline"@,
        "import"@,
        "export"@,
        "type_of"@,
        "length"@,
        "parse_number"@,
        "sqrt"@,
        "floor"@,
        "round"@,
        "ceil"@,
        "pow"@,
    ]
}

/// The parameter names of each builtin function, in catalog order.
pub open spec fn builtin_args() -> Seq<Seq<Seq<char>>> {
    seq![
        seq!["args"@],
        seq![],
        seq!["value"@],
        seq!["value"@],
        seq!["value"@],
        seq!["value"@],
        seq!["number"@],
        seq!["number"@],
        seq!["number"@],
        seq!["number"@],
        seq!["number"@],
        seq!["number"@, "exp"@],
    ]
}

/// The markdown documentation of each builtin function, in catalog order.
pub open spec fn builtin_docs() -> Seq<Seq<char>> {
    seq![
        "Print arguments to standard output. Example: ``` print('Hello World')```"@,
        "Read from standard input. Example: ```set input = readline()```"@,
        "Import value from a module, Example: ``` set module = import('module')```"@,
        "Returns a value from a script. Example: ```export(my_object)```"@,
        "Returns the type of the argument. Example: ```type_of('string') -- string```"@,
        "Returns the length of iterable types. Example: ```length([1, 2, 3]) -- 3```"@,
        "Parse string to number. Example: ```parse_number('2') -- 2```"@,
        "Returns the square root of a number"@,
        "Returns the largest integer less than or equal to a number"@,
        "Rounds a number to the nearest integer"@,
        "Returns the smallest integer greater than or equal to a number"@,
        "Raises the number to the power of exp"@,
    ]
}

/// The builtin-function catalog. The names are [`builtin_names`], the
/// parameter lists [`builtin_args`], and the documentation [`builtin_docs`],
/// entry by entry.
pub fn builtin_functions() -> (r: Vec<BuiltinFn>)
    ensures
        r@.len() == builtin_names().len(),
        builtin_args().len() == builtin_names().len(),
        builtin_docs().len() == builtin_names().len(),
        forall|i: int| 0 <= i < r@.len() ==> #[trigger] r@[i]@.name == builtin_names()[i],
        forall|i: int| 0 <= i < r@.len() ==> #[trigger] r@[i]@.args == builtin_args()[i],
        forall|i: int| 0 <= i < r@.len() ==> #[trigger] r@[i]@.doc == builtin_docs()[i],
{
    let mut r: Vec<BuiltinFn> = Vec::new();
    r.push(BuiltinFn::new(
        "print",
        vec!["args"],
        "Print arguments to standard output. Example: ``` print('Hello World')```",
    ));
    r.push(BuiltinFn::new(
        "readline",
        vec![],
        "Read from standard input. Example: ```set input = readline()```",
    ));
    r.push(BuiltinFn::new(
        "import",
        vec!["value"],
        "Import value from a module, Example: ``` set module = import('module')```",
    ));
    r.push(BuiltinFn::new(
        "export",
        vec!["value"],
        "Returns a value from a script. Example: ```export(my_object)```",
    ));
    r.push(BuiltinFn::new(
        "type_of",
        vec!["value"],
        "Returns the type of the argument. Example: ```type_of('string') -- string```",
    ));
    r.push(BuiltinFn::new(
        "length",
        vec!["value"],
        "Returns the length of iterable types. Example: ```length([1, 2, 3]) -- 3```",
    ));
    r.push(BuiltinFn::new(
        "parse_number",
        vec!["number"],
        "Parse string to number. Example: ```parse_number('2') -- 2```",
    ));
    r.push(BuiltinFn::new("sqrt", vec!["number"], "Returns the square root of a number"));
    r.push(BuiltinFn::new(
        "floor",
        vec!["number"],
        "Returns the largest integer less than or equal to a number",
    ));
    r.push(BuiltinFn::new("round", vec!["number"], "Rounds a number to the nearest integer"));
    r.push(BuiltinFn::new(
        "ceil",
        vec!["number"],
        "Returns the smallest integer greater than or equal to a number",
    ));
    r.push(BuiltinFn::new("pow", vec!["number", "exp"], "Raises the number to the power of exp"));
    proof {
        assert(forall|i: int|
            0 <= i < r@.len() ==> #[trigger] r@[i]@.args =~= builtin_args()[i]) by {
            assert(r@[0]@.args =~= builtin_args()[0]);
            assert(r@[1]@.args =~= builtin_args()[1]);
            assert(r@[2]@.args =~= builtin_args()[2]);
            assert(r@[3]@.args =~= builtin_args()[3]);
            assert(r@[4]@.args =~= builtin_args()[4]);
            assert(r@[5]@.args =~= builtin_args()[5]);
            assert(r@[6]@.args =~= builtin_args()[6]);
            assert(r@[7]@.args =~= builtin_args()[7]);
            assert(r@[8]@.args =~= builtin_args()[8]);
            assert(r@[9]@.args =~= builtin_args()[9]);
            assert(r@[10]@.args =~= builtin_args()[10]);
            assert(r@[11]@.args =~= builtin_args()[11]);
        }
    }
    r
}

} // verus!
