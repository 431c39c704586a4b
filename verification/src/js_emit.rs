//! The JavaScript artifact: a module that loads the root module and
//! re-exports each exported value under its name. Types leave no trace in
//! it.

use vstd::prelude::*;

use crate::json_emit::{json_quoted, quote};
use crate::structures::{insert_key, texts, with_key};
use crate::type_structs::Handle;

verus! {

/// The statement that re-exports a name, given as a JSON string.
pub open spec fn reexport_text(quoted_name: Seq<char>) -> Seq<char> {
    "exports["@ + quoted_name + "] = source["@ + quoted_name + "];\n"@
}

/// The first `n` of `lines`, one after the other.
pub open spec fn lines_upto(lines: Seq<Seq<char>>, n: int) -> Seq<char>
    decreases n,
{
    if n <= 0 {
        Seq::empty()
    } else {
        lines_upto(lines, n - 1) + lines[n - 1]
    }
}

/// The text of a module that loads the module at a path, given as a JSON
/// string, and then runs `statements`.
pub open spec fn module_of_lines(quoted_path: Seq<char>, statements: Seq<Seq<char>>) -> Seq<
    char,
> {
    "const source = require("@ + quoted_path + ");\n"@ + lines_upto(
        statements,
        statements.len() as int,
    )
}

/// The statements that re-export `names`, in order.
pub open spec fn reexports(names: Seq<String>) -> Seq<Seq<char>> {
    Seq::new(names.len(), |i: int| reexport_text(json_quoted(names[i]@)))
}

/// The text of the module: it loads the module at `require_path`, then
/// re-exports `names`.
pub open spec fn module_text(names: Seq<String>, require_path: Seq<char>) -> Seq<char> {
    module_of_lines(json_quoted(require_path), reexports(names))
}

/// The statement that re-exports a name, given as a JSON string.
pub fn reexport_of(quoted_name: &str) -> (r: String)
    ensures
        r@ == reexport_text(quoted_name@),
{
    let mut line = String::from_str("exports[");
    line.append(quoted_name);
    line.append("] = source[");
    line.append(quoted_name);
    line.append("];\n");
    line
}

/// The text of a module that loads the module at a path, given as a JSON
/// string, and then runs `statements`.
pub fn module_of(quoted_path: &str, statements: &Vec<String>) -> (r: String)
    ensures
        r@ == module_of_lines(quoted_path@, texts(statements@)),
{
    let mut body = String::new();
    let mut i: usize = 0;
    while i < statements.len()
        invariant
            i <= statements@.len(),
            body@ == lines_upto(texts(statements@), i as int),
        decreases statements@.len() - i,
    {
        body.append(statements[i].as_str());
        i += 1;
    }
    let mut out = String::from_str("const source = require(");
    out.append(quoted_path);
    out.append(");\n");
    out.append(body.as_str());
    out
}

/// The JavaScript artifact in the making: the names to re-export.
#[derive(Debug, PartialEq, Eq)]
pub struct JsOutput {
    pub names: Vec<String>,
}

impl View for JsOutput {
    type V = Seq<String>;

    open spec fn view(&self) -> Seq<String> {
        self.names@
    }
}

impl JsOutput {
    /// An artifact that re-exports nothing.
    pub fn new() -> (r: Self)
        ensures
            r@ == Seq::<String>::empty(),
    {
        JsOutput { names: Vec::new() }
    }

    /// Takes note of an exported type: types are erased, so nothing
    /// changes.
    pub fn handle_type(&mut self, key: &String, typ: Handle)
        ensures
            final(self)@ == old(self)@,
    {
    }

    /// Takes note of the value exported as `key`: it is re-exported,
    /// once.
    pub fn handle_value(&mut self, key: &String, typ: Handle)
        ensures
            final(self)@ == with_key(old(self)@, *key),
    {
        insert_key(&mut self.names, key.clone());
    }

    /// The text of the artifact, which loads the module at
    /// `default_require_path`.
    pub fn finalize(&self, default_require_path: String) -> (r: String)
        ensures
            r@ == module_text(self@, default_require_path@),
    {
        let mut statements: Vec<String> = Vec::new();
        let mut i: usize = 0;
        while i < self.names.len()
            invariant
                i <= self.names@.len(),
                statements@.len() == i,
                forall|j: int|
                    0 <= j < i ==> (#[trigger] statements@[j])@ == reexport_text(
                        json_quoted(self.names@[j]@),
                    ),
            decreases self.names@.len() - i,
        {
            let name = quote(self.names[i].as_str());
            statements.push(reexport_of(name.as_str()));
            i += 1;
        }
        assert(texts(statements@) =~= reexports(self.names@));
        module_of(quote(default_require_path.as_str()).as_str(), &statements)
    }
}

} // verus!
