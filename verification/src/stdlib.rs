use vstd::prelude::*;

pub mod casting;

use crate::parser::Name;
use crate::text::{chars_equal, line_message, line_prefix, names_line, nat_digits, push_chars, push_nat, push_str, string_of};
use crate::value::{copy_type, content, contents, lemma_contents, push_type, type_text, Content, Type, Value};

verus! {

/// Whether a path names the module `std::Array`.
pub open spec fn is_array_module(path: Seq<Name>) -> bool {
    path.len() == 2 && path[0].text@ == "std"@ && path[1].text@ == "Array"@
}

/// The library is built into the interpreter. These marks enable its names while a program
/// is checked; importing reads no other file.
pub struct ArrayLibrary {
    pub imported: bool,
    pub short_name: bool,
}

impl ArrayLibrary {
    /// A library with nothing enabled.
    pub fn new() -> (r: Self)
        ensures
            !r.imported,
            !r.short_name,
    {
        ArrayLibrary { imported: false, short_name: false }
    }

    /// `import std::Array;` enables the library; `use std::Array;` also enables the short name
    /// `Array`, and needs an earlier import (see `library_after`). Only `std::Array` exists.
    /// A refused directive changes nothing.
    pub fn import(&mut self, path: &Vec<Name>, is_use: bool, line: usize) -> (r: Result<(), String>)
        ensures
            r matches Err(e) ==> names_line(e@),
            r matches Err(e) ==> e@ == import_error(path@, line as nat),
            match r {
                Ok(_) => library_after(*old(self), path@, is_use) == Some(*final(self)),
                Err(_) => library_after(*old(self), path@, is_use) is None && *final(self) == *old(self),
            },
    {
        if !is_array_module_exec(path) {
            let mut m: Vec<char> = Vec::new();
            push_str(&mut m, "biblioteca desconocida '");
            push_str(&mut m, path_text(path).as_str());
            push_str(&mut m, "'; solo está disponible 'std::Array'.");
            assert(m@ =~= "biblioteca desconocida '"@ + joined_path(path@) + "'; solo está disponible 'std::Array'."@);
            return Err(line_message(line, &m));
        }
        if is_use {
            if !self.imported {
                let mut m: Vec<char> = Vec::new();
                push_str(&mut m, "'use std::Array;' requiere un 'import std::Array;' anterior.");
                assert(m@ =~= "'use std::Array;' requiere un 'import std::Array;' anterior."@);
                return Err(line_message(line, &m));
            }
            self.short_name = true;
        } else {
            self.imported = true;
        }
        Ok(())
    }

    /// The function a call names, once the library and, for the short name, `use` are enabled
    /// (see `library_function`).
    pub fn resolve(&self, path: &Vec<Name>, method: bool) -> (r: Result<ArrayFunction, String>)
        requires
            path@.len() > 0,
        ensures
            r matches Err(e) ==> names_line(e@),
            r matches Err(e) ==> e@ == library_error(*self, path@, method),
            match r {
                Ok(f) => library_function(*self, path@, method) == Some(f),
                Err(_) => library_function(*self, path@, method) is None,
            },
    {
        let function = ArrayFunction::resolve(path, method)?;
        let name = &path[path.len() - 1];
        if !self.imported {
            let mut m: Vec<char> = Vec::new();
            push_str(&mut m, "El método '");
            push_chars(&mut m, &name.text);
            push_str(&mut m, "' requiere un 'import std::Array;' anterior.");
            assert(m@ =~= "El método '"@ + name.text@ + "' requiere un 'import std::Array;' anterior."@);
            return Err(name.error_chars(&m));
        }
        if !method && path.len() == 2 && !self.short_name {
            let mut m: Vec<char> = Vec::new();
            push_str(&mut m, "El nombre corto 'Array' requiere un 'use std::Array;' anterior; también puedes escribir 'std::Array::");
            push_chars(&mut m, &name.text);
            push_str(&mut m, "(array)'.");
            assert(m@ =~= "El nombre corto 'Array' requiere un 'use std::Array;' anterior; también puedes escribir 'std::Array::"@
                + name.text@ + "(array)'."@);
            return Err(name.error_chars(&m));
        }
        Ok(function)
    }
}

/// The library after an `import` (or, with `is_use`, a `use`) of `path`: only `std::Array`
/// exists; `import` enables the library, `use` enables the short name and needs the library
/// enabled first. Repeating either changes nothing more.
pub open spec fn library_after(library: ArrayLibrary, path: Seq<Name>, is_use: bool) -> Option<ArrayLibrary> {
    if !is_array_module(path) {
        None
    } else if is_use {
        if library.imported {
            Some(ArrayLibrary { imported: true, short_name: true })
        } else {
            None
        }
    } else {
        Some(ArrayLibrary { imported: true, short_name: library.short_name })
    }
}

/// `use std::Array;` is refused until `import std::Array;` has been accepted; after it, `use`
/// is accepted; importing or using twice is the same as once.
pub proof fn lemma_import_before_use(library: ArrayLibrary, path: Seq<Name>)
    requires
        is_array_module(path),
    ensures
        library_after(ArrayLibrary { imported: false, short_name: false }, path, true) is None,
        library_after(library_after(library, path, false)->0, path, true) is Some,
        library_after(library_after(library, path, false)->0, path, false) == library_after(library, path, false),
        library_after(library, path, true) matches Some(after) ==> library_after(after, path, true) == Some(after),
{
}

/// The function a call names (see `function_named`), provided the library is imported and, for
/// the short path `Array::f`, the short name is in use.
pub open spec fn library_function(library: ArrayLibrary, path: Seq<Name>, method: bool) -> Option<ArrayFunction> {
    if library.imported && (!method && path.len() == 2 ==> library.short_name) {
        function_named(path, method)
    } else {
        None
    }
}

/// Whether a path is `std::Array`.
fn is_array_module_exec(path: &Vec<Name>) -> (r: bool)
    ensures
        r == is_array_module(path@),
{
    path.len() == 2 && is_text(&path[0].text, "std") && is_text(&path[1].text, "Array")
}

/// Whether the characters equal the text.
fn is_text(a: &Vec<char>, s: &str) -> (r: bool)
    ensures
        r == (a@ == s@),
{
    let b = crate::text::chars_of(s);
    chars_equal(a, &b)
}

/// The content of an optional value.
pub open spec fn optional_content(v: Option<Value>) -> Option<Content> {
    match v {
        Some(x) => Some(x@),
        None => None,
    }
}

/// What an array function does to the elements `xs` of its array: the value it gives back, if
/// any, and the elements afterwards. `len` gives the length and changes nothing; `push` appends
/// its argument and gives nothing back; `pop` removes the last element and gives it back. There
/// is none for `pop` on an empty array, for a length beyond `int`, or for `push` without an
/// argument.
pub open spec fn call_effect(f: ArrayFunction, xs: Seq<Content>, argument: Option<Content>) -> Option<(Option<Content>, Seq<Content>)> {
    match f {
        ArrayFunction::Len => if xs.len() <= i64::MAX {
            Some((Some(Content::Int(xs.len() as i64)), xs))
        } else {
            None
        },
        ArrayFunction::Push => match argument {
            Some(a) => Some((None, xs.push(a))),
            None => None,
        },
        ArrayFunction::Pop => if xs.len() > 0 {
            Some((Some(xs.last()), xs.drop_last()))
        } else {
            None
        },
    }
}

/// `pop` right after `push` gives back the pushed element and leaves the elements as they
/// were; `len` changes nothing.
pub proof fn lemma_push_then_pop(xs: Seq<Content>, a: Content)
    ensures
        call_effect(ArrayFunction::Push, xs, Some(a)) == Some((None::<Content>, xs.push(a))),
        call_effect(ArrayFunction::Pop, xs.push(a), None) == Some((Some(a), xs)),
        xs.len() <= i64::MAX ==> (call_effect(ArrayFunction::Len, xs, None) matches Some((_, after)) && after == xs),
{
    assert(xs.push(a).drop_last() =~= xs);
}

/// A path written with `::` between its names.
pub open spec fn joined_path(path: Seq<Name>) -> Seq<char>
    decreases path.len(),
{
    if path.len() == 0 {
        Seq::empty()
    } else if path.len() == 1 {
        path[0].text@
    } else {
        joined_path(path.drop_last()) + "::"@ + path.last().text@
    }
}

/// A path written with `::` between its names, as in error messages.
pub fn path_text(path: &Vec<Name>) -> (r: String)
    ensures
        r@ == joined_path(path@),
{
    let mut m: Vec<char> = Vec::new();
    push_path(&mut m, path);
    string_of(&m)
}

/// Appends a path written with `::` between its names.
fn push_path(out: &mut Vec<char>, path: &Vec<Name>)
    ensures
        final(out)@ == old(out)@ + joined_path(path@),
{
    let ghost start = out@;
    let mut k: usize = 0;
    while k < path.len()
        invariant
            k <= path@.len(),
            out@ == start + joined_path(path@.take(k as int)),
        decreases path@.len() - k,
    {
        if k > 0 {
            push_str(out, "::");
        }
        push_chars(out, &path[k].text);
        proof {
            let t = path@.take(k + 1);
            assert(t.drop_last() == path@.take(k as int));
            assert(t.last() == path@[k as int]);
            if k == 0 {
                assert(path@.take(0) =~= Seq::<Name>::empty());
            }
        }
        k = k + 1;
    }
    assert(path@.take(path@.len() as int) == path@);
}

/// The library's functions on arrays.
#[derive(Clone, Copy, PartialEq, Eq, Structural)]
pub enum ArrayFunction {
    Len,
    Push,
    Pop,
}

/// The function that a call names: as a method the path is the name alone; otherwise
/// `std::Array::name` or `Array::name`. The names are `len`, `push` and `pop`.
pub open spec fn function_named(path: Seq<Name>, method: bool) -> Option<ArrayFunction> {
    if !valid_call_path(path, method) {
        None
    } else if path.last().text@ == "len"@ {
        Some(ArrayFunction::Len)
    } else if path.last().text@ == "push"@ {
        Some(ArrayFunction::Push)
    } else if path.last().text@ == "pop"@ {
        Some(ArrayFunction::Pop)
    } else {
        None
    }
}

/// Whether a call's path has a form that names a library function: the name alone for a
/// method, otherwise `std::Array::name` or `Array::name`.
pub open spec fn valid_call_path(path: Seq<Name>, method: bool) -> bool {
    if method {
        path.len() == 1
    } else {
        (path.len() == 3 && path[0].text@ == "std"@ && path[1].text@ == "Array"@)
            || (path.len() == 2 && path[0].text@ == "Array"@)
    }
}

/// An error at the line of a name.
pub open spec fn name_message(name: Name, text: Seq<char>) -> Seq<char> {
    line_prefix(name.line as nat) + text
}

/// The message of a refused `import` or `use` of `path` at a line: a library other than
/// `std::Array`, or a `use` before any `import`.
pub open spec fn import_error(path: Seq<Name>, line: nat) -> Seq<char> {
    if !is_array_module(path) {
        line_prefix(line) + ("biblioteca desconocida '"@ + joined_path(path) + "'; solo está disponible 'std::Array'."@)
    } else {
        line_prefix(line) + "'use std::Array;' requiere un 'import std::Array;' anterior."@
    }
}

/// The message for a path that names no library function, at the line of its last name: a
/// path of the wrong form, or an unknown function name.
pub open spec fn unknown_function_error(path: Seq<Name>, method: bool) -> Seq<char> {
    if !valid_call_path(path, method) {
        name_message(path.last(), "Llamada de biblioteca desconocida '"@ + joined_path(path) + "'."@)
    } else {
        name_message(
            path.last(),
            "Método de biblioteca desconocido '"@ + path.last().text@ + "'; std::Array solo ofrece 'len', 'push' y 'pop'."@,
        )
    }
}

/// The message for a call that the library does not resolve (see `library_function`): first
/// an unknown function, then a library that is not imported, then a short path without `use`.
pub open spec fn library_error(library: ArrayLibrary, path: Seq<Name>, method: bool) -> Seq<char> {
    let name = path.last();
    if function_named(path, method) is None {
        unknown_function_error(path, method)
    } else if !library.imported {
        name_message(name, "El método '"@ + name.text@ + "' requiere un 'import std::Array;' anterior."@)
    } else {
        name_message(
            name,
            "El nombre corto 'Array' requiere un 'use std::Array;' anterior; también puedes escribir 'std::Array::"@
                + name.text@ + "(array)'."@,
        )
    }
}

/// The message for a call with `arguments` arguments where the function takes `expected`.
pub open spec fn arity_error(f: ArrayFunction, expected: nat, arguments: nat, name: Name) -> Seq<char> {
    name_message(
        name,
        "'"@ + function_text(f) + "' esperaba "@ + nat_digits(expected) + " argumentos entre paréntesis; recibió "@
            + nat_digits(arguments) + "."@,
    )
}

/// The message for a function applied to a value of a type that is not an array.
pub open spec fn array_type_error(f: ArrayFunction, array: Type, name: Name) -> Seq<char> {
    name_message(name, "'"@ + function_text(f) + "' solo admite arrays; se recibió "@ + type_text(array) + "."@)
}

/// The message for a function that fails when it runs on `target` (see `call_effect`): a
/// target that is no array, `push` without an element, a length beyond `int`, or `pop` of an
/// empty array.
pub open spec fn evaluate_error(f: ArrayFunction, target: Content, argument: Option<Content>, name: Name) -> Seq<char> {
    if !(target is Array) {
        name_message(name, "'"@ + function_text(f) + "' solo admite arrays."@)
    } else {
        match f {
            ArrayFunction::Len => name_message(name, "La longitud del array está fuera del rango de int."@),
            ArrayFunction::Push => name_message(name, "'push' necesita un valor que añadir."@),
            ArrayFunction::Pop => name_message(name, "No se puede hacer 'pop' de un array vacío."@),
        }
    }
}

/// How many arguments a call takes between its parentheses: the array is the receiver of a
/// method call and the first argument otherwise, and `push` takes the new element after it.
pub open spec fn arity(f: ArrayFunction, method: bool) -> nat {
    let own: nat = if f == ArrayFunction::Push { 1 } else { 0 };
    if method { own } else { own + 1 }
}

/// How a function is called.
pub open spec fn function_text(f: ArrayFunction) -> Seq<char> {
    match f {
        ArrayFunction::Len => "len"@,
        ArrayFunction::Push => "push"@,
        ArrayFunction::Pop => "pop"@,
    }
}

/// The type of a call's result: `int` for `len`, the element type for `pop`, and no value for
/// `push`; `None` when the argument is not an array.
pub open spec fn call_result(f: ArrayFunction, array: Type) -> Option<Option<Type>> {
    match array {
        Type::Array(element) => Some(match f {
            ArrayFunction::Len => Some(Type::Int),
            ArrayFunction::Push => None,
            ArrayFunction::Pop => Some(*element),
        }),
        _ => None,
    }
}

impl ArrayFunction {
    /// The function a path names (see `function_named`).
    pub fn resolve(path: &Vec<Name>, method: bool) -> (r: Result<Self, String>)
        requires
            path@.len() > 0,
        ensures
            r matches Err(e) ==> names_line(e@),
            r matches Err(e) ==> e@ == unknown_function_error(path@, method),
            r matches Ok(f) ==> function_named(path@, method) == Some(f),
            r is Err ==> function_named(path@, method) is None,
    {
        let name = &path[path.len() - 1];
        let valid_path = if method {
            path.len() == 1
        } else {
            (path.len() == 3 && is_text(&path[0].text, "std") && is_text(&path[1].text, "Array"))
                || (path.len() == 2 && is_text(&path[0].text, "Array"))
        };
        if !valid_path {
            let mut m: Vec<char> = Vec::new();
            push_str(&mut m, "Llamada de biblioteca desconocida '");
            push_str(&mut m, path_text(path).as_str());
            push_str(&mut m, "'.");
            assert(m@ =~= "Llamada de biblioteca desconocida '"@ + joined_path(path@) + "'."@);
            return Err(name.error_chars(&m));
        }
        if is_text(&name.text, "len") {
            Ok(ArrayFunction::Len)
        } else if is_text(&name.text, "push") {
            Ok(ArrayFunction::Push)
        } else if is_text(&name.text, "pop") {
            Ok(ArrayFunction::Pop)
        } else {
            let mut m: Vec<char> = Vec::new();
            push_str(&mut m, "Método de biblioteca desconocido '");
            push_chars(&mut m, &name.text);
            push_str(&mut m, "'; std::Array solo ofrece 'len', 'push' y 'pop'.");
            assert(m@ =~= "Método de biblioteca desconocido '"@ + name.text@ + "'; std::Array solo ofrece 'len', 'push' y 'pop'."@);
            Err(name.error_chars(&m))
        }
    }

    /// How the function is called.
    pub fn name(self) -> (r: &'static str)
        ensures
            r@ == function_text(self),
    {
        match self {
            ArrayFunction::Len => "len",
            ArrayFunction::Push => "push",
            ArrayFunction::Pop => "pop",
        }
    }

    /// Checks the number of arguments between the parentheses (see `arity`).
    pub fn check_arity(&self, arguments: usize, method: bool, name: &Name) -> (r: Result<(), String>)
        ensures
            r matches Err(e) ==> names_line(e@),
            r matches Err(e) ==> e@ == arity_error(*self, arity(*self, method), arguments as nat, *name),
            r is Ok <==> arguments == arity(*self, method),
    {
        let own: usize = if *self == ArrayFunction::Push { 1 } else { 0 };
        let expected: usize = if method { own } else { own + 1 };
        if arguments != expected {
            let mut m: Vec<char> = Vec::new();
            push_str(&mut m, "'");
            push_str(&mut m, self.name());
            push_str(&mut m, "' esperaba ");
            push_nat(&mut m, expected as u64);
            push_str(&mut m, " argumentos entre paréntesis; recibió ");
            push_nat(&mut m, arguments as u64);
            push_str(&mut m, ".");
            assert(m@ =~= "'"@ + function_text(*self) + "' esperaba "@ + nat_digits(expected as nat)
                + " argumentos entre paréntesis; recibió "@ + nat_digits(arguments as nat) + "."@);
            return Err(name.error_chars(&m));
        }
        Ok(())
    }

    /// The type of the result for an argument of type `array` (see `call_result`).
    pub fn result_type(&self, array: &Type, name: &Name) -> (r: Result<Option<Type>, String>)
        ensures
            r matches Err(e) ==> names_line(e@),
            r matches Err(e) ==> e@ == array_type_error(*self, *array, *name),
            r matches Ok(t) ==> call_result(*self, *array) == Some(t),
            r is Err ==> call_result(*self, *array) is None,
    {
        match array {
            Type::Array(element) => Ok(match self {
                ArrayFunction::Len => Some(Type::Int),
                ArrayFunction::Push => None,
                ArrayFunction::Pop => Some(copy_type(element)),
            }),
            _ => {
                let mut m: Vec<char> = Vec::new();
                push_str(&mut m, "'");
                push_str(&mut m, self.name());
                push_str(&mut m, "' solo admite arrays; se recibió ");
                push_type(&mut m, array);
                push_str(&mut m, ".");
                assert(m@ =~= "'"@ + function_text(*self) + "' solo admite arrays; se recibió "@ + type_text(*array) + "."@);
                Err(name.error_chars(&m))
            },
        }
    }

    /// Runs the function on the array `target` (see `call_effect`): `len` counts its elements,
    /// `push` appends `argument`, `pop` removes and returns the last element. A target that is
    /// no array, `push` without an argument, `pop` of an empty array and a length beyond `int`
    /// are errors that leave the target as it was.
    pub fn evaluate(&self, target: &mut Value, argument: Option<Value>, name: &Name) -> (r: Result<Option<Value>, String>)
        ensures
            r matches Err(e) ==> names_line(e@),
            r matches Err(e) ==> e@ == evaluate_error(*self, old(target)@, optional_content(argument), *name),
            !(old(target)@ is Array) ==> r is Err && final(target)@ == old(target)@,
            old(target)@ is Array ==> match r {
                Ok(v) => call_effect(*self, old(target)@->Array_0, optional_content(argument))
                    == Some((optional_content(v), final(target)@->Array_0)) && final(target)@ is Array,
                Err(_) => call_effect(*self, old(target)@->Array_0, optional_content(argument)) is None
                    && final(target)@ == old(target)@,
            },
    {
        match target {
            Value::Array(elements) => {
                proof {
                    lemma_contents(elements@);
                }
                match self {
                    ArrayFunction::Len => {
                        let n = elements.len();
                        if n as u64 > 0x7fff_ffff_ffff_ffff {
                            return Err(name.error("La longitud del array está fuera del rango de int."));
                        }
                        Ok(Some(Value::Int(n as i64)))
                    },
                    ArrayFunction::Push => {
                        let ghost before = elements@;
                        match argument {
                            Some(v) => {
                                elements.push(v);
                                proof {
                                    lemma_contents(elements@);
                                    lemma_contents(before);
                                    assert(contents(elements@) =~= contents(before).push(elements@.last()@));
                                }
                            },
                            None => {
                                return Err(name.error("'push' necesita un valor que añadir."));
                            },
                        }
                        Ok(None)
                    },
                    ArrayFunction::Pop => {
                        let ghost before = elements@;
                        match elements.pop() {
                            Some(v) => {
                                proof {
                                    lemma_contents(elements@);
                                    lemma_contents(before);
                                    assert(contents(elements@) =~= contents(before).drop_last());
                                }
                                Ok(Some(v))
                            },
                            None => {
                                Err(name.error("No se puede hacer 'pop' de un array vacío."))
                            },
                        }
                    },
                }
            },
            _ => {
                let mut m: Vec<char> = Vec::new();
                push_str(&mut m, "'");
                push_str(&mut m, self.name());
                push_str(&mut m, "' solo admite arrays.");
                assert(m@ =~= "'"@ + function_text(*self) + "' solo admite arrays."@);
                Err(name.error_chars(&m))
            },
        }
    }
}

}
