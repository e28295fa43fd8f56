//! The contract notation: types, signatures and doc-comment contracts.
//!
//! The notation is specified as functions from the characters ahead to what
//! they denote and the characters behind it, or to the message of the error.

use vstd::prelude::*;
use vstd::slice::slice_subrange;

use crate::report::{CheckerError, ErrorModel};
use crate::text::{
    after_char, after_prefix, alphabetic, alphanumeric, chars_of, lines, push_chars, same_text,
    slice_texts, split_lines, starts_with, string_of, texts, trim, trim_start, trimmed,
    trimmed_start,
};
use crate::types::{
    fields_model, option_model, params_model, variants_model, Contract, ContractModel, EnumVariant,
    ParamDef, ParamModel, PrimitiveType, TypeDef, TypeModel, VariantModel,
};

verus! {

// ---------------------------------------------------------------------------
// The notation of types.
// ---------------------------------------------------------------------------

/// A character that an identifier may start with.
pub open spec fn is_ident_start(c: char) -> bool {
    alphabetic(c) || c == '_'
}

/// A character that an identifier may go on with.
pub open spec fn is_ident_part(c: char) -> bool {
    alphanumeric(c) || c == '_'
}

/// The number of characters ahead that an identifier may go on with.
pub open spec fn word_length(s: Seq<char>) -> nat
    decreases s.len(),
{
    if s.len() > 0 && is_ident_part(s[0]) {
        1 + word_length(s.skip(1))
    } else {
        0
    }
}

/// The identifier ahead, and what is behind it.
pub open spec fn ident_at(s: Seq<char>) -> Option<(Seq<char>, Seq<char>)> {
    if s.len() > 0 && is_ident_start(s[0]) {
        let n = 1 + word_length(s.skip(1)) as int;
        Some((s.take(n), s.skip(n)))
    } else {
        None
    }
}

/// The primitive type of a name.
pub open spec fn primitive_named(name: Seq<char>) -> Option<PrimitiveType> {
    if name == "String"@ {
        Some(PrimitiveType::String)
    } else if name == "int"@ {
        Some(PrimitiveType::Int)
    } else if name == "float"@ {
        Some(PrimitiveType::Float)
    } else if name == "bool"@ {
        Some(PrimitiveType::Bool)
    } else if name == "bytes"@ {
        Some(PrimitiveType::Bytes)
    } else {
        None
    }
}

/// One element of a union (separated by `|`).
#[verifier::ext_equal]
pub enum AtomModel {
    Primitive(PrimitiveType),
    Object(Seq<(Seq<char>, TypeModel)>),
    List(Box<TypeModel>),
    Unit,
    Path { path: Seq<Seq<char>>, inner: Option<Box<TypeModel>> },
}

/// The type that an element denotes when it stands alone.
pub open spec fn atom_type(atom: AtomModel) -> TypeModel {
    match atom {
        AtomModel::Primitive(p) => TypeModel::Primitive(p),
        AtomModel::Object(fields) => TypeModel::Object(fields),
        AtomModel::List(inner) => TypeModel::List(inner),
        AtomModel::Unit => TypeModel::Unit,
        AtomModel::Path { path, inner } => TypeModel::Enum(seq![VariantModel { path, inner }]),
    }
}

/// The alternative that an element denotes among others.
pub open spec fn atom_variant(atom: AtomModel) -> VariantModel {
    VariantModel { path: atom->path, inner: atom->inner }
}

/// The enum type of elements that are all variants.
pub open spec fn union_of_variants(atoms: Seq<AtomModel>) -> Result<TypeModel, Seq<char>> {
    if forall|i: int| 0 <= i < atoms.len() ==> #[trigger] atoms[i] is Path {
        Ok(TypeModel::Enum(atoms.map_values(|atom: AtomModel| atom_variant(atom))))
    } else {
        Err("cannot mix enum variants with other types in a union"@)
    }
}

/// The type of a union.
pub open spec fn union_type(atoms: Seq<AtomModel>) -> Result<TypeModel, Seq<char>> {
    let others = atoms.filter(|atom: AtomModel| !(atom is Unit));
    let units = atoms.len() - others.len();
    if atoms.len() == 1 {
        Ok(atom_type(atoms[0]))
    } else if units > 1 {
        Err("union contains more than one '()' alternative"@)
    } else if units == 1 && others.len() == 1 {
        Ok(TypeModel::Nullable(Box::new(atom_type(others[0]))))
    } else if units == 1 {
        match union_of_variants(others) {
            Ok(inner) => Ok(TypeModel::Nullable(Box::new(inner))),
            Err(message) => Err(message),
        }
    } else {
        union_of_variants(atoms)
    }
}

/// The segments ahead that go on with a path, each after `::`.
pub open spec fn segments_at(s: Seq<char>) -> Result<(Seq<Seq<char>>, Seq<char>), Seq<char>>
    decreases s.len(),
{
    let rest = trim_start(s);
    if starts_with(rest, "::"@) {
        match ident_at(trim_start(rest.skip(2))) {
            Some((segment, behind)) => if behind.len() < s.len() {
                prepend(segment, segments_at(behind))
            } else {
                Err(Seq::empty())
            },
            None => Err("expected identifier after '::' in: '"@ + s + "'"@),
        }
    } else {
        Ok((Seq::empty(), s))
    }
}

/// A list with one more element before it.
pub open spec fn prepend<T>(
    first: T,
    rest: Result<(Seq<T>, Seq<char>), Seq<char>>,
) -> Result<(Seq<T>, Seq<char>), Seq<char>> {
    match rest {
        Ok((list, behind)) => Ok((seq![first] + list, behind)),
        Err(message) => Err(message),
    }
}

/// The type ahead. Each part of the notation is at least one character long,
/// so that what is behind it is shorter (see `lemma_type_shortens`).
pub open spec fn type_at(s: Seq<char>) -> Result<(TypeModel, Seq<char>), Seq<char>>
    decreases s.len(), 3nat,
{
    let start = trim_start(s);
    if start.len() <= s.len() {
        match atoms_at(start) {
            Ok((atoms, behind)) => match union_type(atoms) {
                Ok(t) => Ok((t, behind)),
                Err(message) => Err(message),
            },
            Err(message) => Err(message),
        }
    } else {
        Err(Seq::empty())
    }
}

/// The elements of the union ahead.
pub open spec fn atoms_at(s: Seq<char>) -> Result<(Seq<AtomModel>, Seq<char>), Seq<char>>
    decreases s.len(), 2nat,
{
    match atom_at(s) {
        Ok((atom, behind)) => {
            let rest = trim_start(behind);
            if rest.len() > 0 && rest[0] == '|' {
                let next = trim_start(rest.skip(1));
                if next.len() < s.len() {
                    prepend(atom, atoms_at(next))
                } else {
                    Err(Seq::empty())
                }
            } else {
                Ok((seq![atom], rest))
            }
        },
        Err(message) => Err(message),
    }
}

/// The element of a union ahead. A parenthesis that white space parts from the
/// name of a primitive type does not belong to it.
pub open spec fn atom_at(s: Seq<char>) -> Result<(AtomModel, Seq<char>), Seq<char>>
    decreases s.len(), 1nat,
{
    let start = trim_start(s);
    if start.len() > s.len() {
        Err(Seq::empty())
    } else if start.len() > 0 && start[0] == '{' {
        match object_at(start.skip(1)) {
            Ok((fields, behind)) => Ok((AtomModel::Object(fields), behind)),
            Err(message) => Err(message),
        }
    } else if start.len() > 0 && start[0] == '[' {
        match type_at(start.skip(1)) {
            Ok((inner, behind)) => {
                let rest = trim_start(behind);
                if rest.len() > 0 && rest[0] == ']' {
                    Ok((AtomModel::List(Box::new(inner)), rest.skip(1)))
                } else {
                    Err("expected ']' in: '"@ + rest + "'"@)
                }
            },
            Err(message) => Err(message),
        }
    } else if start.len() > 0 && start[0] == '(' {
        let rest = trim_start(start.skip(1));
        if rest.len() > 0 && rest[0] == ')' {
            Ok((AtomModel::Unit, rest.skip(1)))
        } else {
            Err("expected ')' for unit type in: '("@ + rest + "'"@)
        }
    } else {
        match ident_at(start) {
            Some((first, after_first)) => match prepend(first, segments_at(after_first)) {
                Ok((path, behind)) => {
                    let rest = trim_start(behind);
                    if path.len() == 1 && primitive_named(path[0]) is Some && !(behind.len() > 0
                        && behind[0] == '(') {
                        Ok((AtomModel::Primitive(primitive_named(path[0])->Some_0), behind))
                    } else if rest.len() > 0 && rest[0] == '(' {
                        if rest.len() <= s.len() {
                            match type_at(rest.skip(1)) {
                                Ok((inner, behind)) => {
                                    let rest = trim_start(behind);
                                    if rest.len() > 0 && rest[0] == ')' {
                                        Ok(
                                            (
                                                AtomModel::Path {
                                                    path,
                                                    inner: Some(Box::new(inner)),
                                                },
                                                rest.skip(1),
                                            ),
                                        )
                                    } else {
                                        Err("expected ')' in: '"@ + rest + "'"@)
                                    }
                                },
                                Err(message) => Err(message),
                            }
                        } else {
                            Err(Seq::empty())
                        }
                    } else {
                        Ok((AtomModel::Path { path, inner: None }, behind))
                    }
                },
                Err(message) => Err(message),
            },
            None => Err("expected a type, found: '"@ + start + "'"@),
        }
    }
}

/// The fields ahead, up to the closing brace.
pub open spec fn object_at(s: Seq<char>) -> Result<
    (Seq<(Seq<char>, TypeModel)>, Seq<char>),
    Seq<char>,
>
    decreases s.len(), 5nat,
{
    let start = trim_start(s);
    if start.len() > s.len() {
        Err(Seq::empty())
    } else if start.len() > 0 && start[0] == '}' {
        Ok((Seq::empty(), start.skip(1)))
    } else {
        fields_at(start)
    }
}

/// The fields ahead, at least one, up to the closing brace.
pub open spec fn fields_at(s: Seq<char>) -> Result<
    (Seq<(Seq<char>, TypeModel)>, Seq<char>),
    Seq<char>,
>
    decreases s.len(), 4nat,
{
    match ident_at(s) {
        Some((name, after_name)) => {
            let colon = trim_start(after_name);
            if colon.len() > 0 && colon[0] == ':' {
                if colon.len() <= s.len() {
                    match type_at(colon.skip(1)) {
                        Ok((t, behind)) => {
                            let rest = trim_start(behind);
                            if rest.len() > 0 && rest[0] == ',' {
                                let next = trim_start(rest.skip(1));
                                if next.len() > 0 && next[0] == '}' {
                                    Ok((seq![(name, t)], next.skip(1)))
                                } else if next.len() < s.len() {
                                    prepend((name, t), fields_at(next))
                                } else {
                                    Err(Seq::empty())
                                }
                            } else if rest.len() > 0 && rest[0] == '}' {
                                Ok((seq![(name, t)], rest.skip(1)))
                            } else {
                                Err("expected ',' or '}' in object, found: '"@ + rest + "'"@)
                            }
                        },
                        Err(message) => Err(message),
                    }
                } else {
                    Err(Seq::empty())
                }
            } else {
                Err("expected ':' after field '"@ + name + "'"@)
            }
        },
        None => Err("expected field name in: '"@ + s + "'"@),
    }
}

// ---------------------------------------------------------------------------
// What is behind a part of the notation is shorter.
// ---------------------------------------------------------------------------

pub proof fn lemma_trim_start_shortens(s: Seq<char>)
    ensures
        trim_start(s).len() <= s.len(),
    decreases s.len(),
{
    if s.len() > 0 {
        lemma_trim_start_shortens(s.skip(1));
    }
}

proof fn lemma_word_fits(s: Seq<char>)
    ensures
        word_length(s) <= s.len(),
    decreases s.len(),
{
    if s.len() > 0 {
        lemma_word_fits(s.skip(1));
    }
}

pub proof fn lemma_ident_shortens(s: Seq<char>)
    ensures
        ident_at(s) is Some ==> ident_at(s)->Some_0.1.len() < s.len(),
{
    if s.len() > 0 {
        lemma_word_fits(s.skip(1));
    }
}

pub(crate) proof fn lemma_segments_shorten(s: Seq<char>)
    ensures
        segments_at(s) is Ok ==> segments_at(s)->Ok_0.1.len() <= s.len(),
    decreases s.len(),
{
    let rest = trim_start(s);
    if starts_with(rest, "::"@) {
        if let Some((segment, behind)) = ident_at(trim_start(rest.skip(2))) {
            if behind.len() < s.len() {
                lemma_segments_shorten(behind);
            }
        }
    }
}

/// What is behind a type is shorter than what is ahead of it.
pub proof fn lemma_type_shortens(s: Seq<char>)
    ensures
        type_at(s) is Ok ==> type_at(s)->Ok_0.1.len() < s.len(),
    decreases s.len(), 3nat,
{
    lemma_trim_start_shortens(s);
    lemma_atoms_shorten(trim_start(s));
}

proof fn lemma_atoms_shorten(s: Seq<char>)
    ensures
        atoms_at(s) is Ok ==> atoms_at(s)->Ok_0.1.len() < s.len() && atoms_at(s)->Ok_0.0.len() > 0,
    decreases s.len(), 2nat,
{
    lemma_atom_shortens(s);
    if let Ok((atom, behind)) = atom_at(s) {
        let rest = trim_start(behind);
        lemma_trim_start_shortens(behind);
        if rest.len() > 0 && rest[0] == '|' {
            let next = trim_start(rest.skip(1));
            lemma_trim_start_shortens(rest.skip(1));
            lemma_atoms_shorten(next);
        }
    }
}

/// What is behind an element of a union is shorter than what is ahead of it.
pub(crate) proof fn lemma_atom_shortens(s: Seq<char>)
    ensures
        atom_at(s) is Ok ==> atom_at(s)->Ok_0.1.len() < s.len(),
    decreases s.len(), 1nat,
{
    let start = trim_start(s);
    lemma_trim_start_shortens(s);
    if start.len() > 0 && start[0] == '{' {
        lemma_object_shortens(start.skip(1));
    } else if start.len() > 0 && start[0] == '[' {
        lemma_type_shortens(start.skip(1));
        if let Ok((inner, behind)) = type_at(start.skip(1)) {
            lemma_trim_start_shortens(behind);
        }
    } else if start.len() > 0 && start[0] == '(' {
        lemma_trim_start_shortens(start.skip(1));
    } else {
        lemma_ident_shortens(start);
        if let Some((first, after_first)) = ident_at(start) {
            lemma_segments_shorten(after_first);
            if let Ok((path, behind)) = segments_at(after_first) {
                let rest = trim_start(behind);
                lemma_trim_start_shortens(behind);
                if rest.len() > 0 && rest[0] == '(' {
                    lemma_type_shortens(rest.skip(1));
                    if let Ok((inner, behind)) = type_at(rest.skip(1)) {
                        lemma_trim_start_shortens(behind);
                    }
                }
            }
        }
    }
}

proof fn lemma_object_shortens(s: Seq<char>)
    ensures
        object_at(s) is Ok ==> object_at(s)->Ok_0.1.len() < s.len(),
    decreases s.len(), 5nat,
{
    lemma_trim_start_shortens(s);
    lemma_fields_shorten(trim_start(s));
}

proof fn lemma_fields_shorten(s: Seq<char>)
    ensures
        fields_at(s) is Ok ==> fields_at(s)->Ok_0.1.len() < s.len(),
    decreases s.len(), 4nat,
{
    lemma_ident_shortens(s);
    if let Some((name, after_name)) = ident_at(s) {
        let colon = trim_start(after_name);
        lemma_trim_start_shortens(after_name);
        if colon.len() > 0 && colon[0] == ':' {
            lemma_type_shortens(colon.skip(1));
            if let Ok((t, behind)) = type_at(colon.skip(1)) {
                let rest = trim_start(behind);
                lemma_trim_start_shortens(behind);
                if rest.len() > 0 && rest[0] == ',' {
                    let next = trim_start(rest.skip(1));
                    lemma_trim_start_shortens(rest.skip(1));
                    lemma_fields_shorten(next);
                }
            }
        }
    }
}

// ---------------------------------------------------------------------------
// Parsing types.
// ---------------------------------------------------------------------------

/// One element of a union (separated by `|`), before it is decided how to
/// read the whole type.
enum Atom {
    Primitive(PrimitiveType),
    Object(Vec<(String, TypeDef)>),
    List(Box<TypeDef>),
    Unit,
    /// `path` or `path(inner)`: an enum variant, or, where it stands alone
    /// without an inner value, possibly the name of an enum.
    Path { path: Vec<String>, inner: Option<Box<TypeDef>> },
}

impl View for Atom {
    type V = AtomModel;

    closed spec fn view(&self) -> AtomModel {
        match self {
            Atom::Primitive(p) => AtomModel::Primitive(*p),
            Atom::Object(fields) => AtomModel::Object(fields_model(fields@)),
            Atom::List(inner) => AtomModel::List(Box::new(inner@)),
            Atom::Unit => AtomModel::Unit,
            Atom::Path { path, inner } => AtomModel::Path {
                path: texts(path@),
                inner: match inner {
                    Some(inner) => Some(Box::new(inner@)),
                    None => None,
                },
            },
        }
    }
}

spec fn atoms_model(atoms: Seq<Atom>) -> Seq<AtomModel> {
    atoms.map_values(|atom: Atom| atom@)
}

/// Whether an error is about the syntax, with the given message.
pub open spec fn is_syntax_error(e: CheckerError, message: Seq<char>) -> bool {
    e@ == ErrorModel::InvalidContractSyntax(message)
}

/// Whether a result is the type that the specification gives, with the same
/// rest, or the error with the same message.
pub open spec fn is_type_result(
    r: Result<(TypeDef, &[char]), CheckerError>,
    wanted: Result<(TypeModel, Seq<char>), Seq<char>>,
) -> bool {
    match (r, wanted) {
        (Ok((t, rest)), Ok((model, behind))) => t@ == model && rest@ == behind,
        (Err(e), Err(message)) => is_syntax_error(e, message),
        _ => false,
    }
}

spec fn is_atom_result(
    r: Result<(Atom, &[char]), CheckerError>,
    wanted: Result<(AtomModel, Seq<char>), Seq<char>>,
) -> bool {
    match (r, wanted) {
        (Ok((atom, rest)), Ok((model, behind))) => atom@ == model && rest@ == behind,
        (Err(e), Err(message)) => is_syntax_error(e, message),
        _ => false,
    }
}

/// A list with other elements before it.
pub open spec fn prepend_all<T>(
    before: Seq<T>,
    rest: Result<(Seq<T>, Seq<char>), Seq<char>>,
) -> Result<(Seq<T>, Seq<char>), Seq<char>> {
    match rest {
        Ok((list, behind)) => Ok((before + list, behind)),
        Err(message) => Err(message),
    }
}

proof fn lemma_prepend_step<T>(
    before: Seq<T>,
    first: T,
    rest: Result<(Seq<T>, Seq<char>), Seq<char>>,
)
    ensures
        prepend_all(before, prepend(first, rest)) == prepend_all(before.push(first), rest),
{
    if let Ok((list, behind)) = rest {
        assert(before + (seq![first] + list) =~= before.push(first) + list);
    }
}

proof fn lemma_prepend_none<T>(rest: Result<(Seq<T>, Seq<char>), Seq<char>>)
    ensures
        prepend_all(Seq::empty(), rest) == rest,
{
    if let Ok((list, behind)) = rest {
        assert(Seq::<T>::empty() + list =~= list);
    }
}

/// The error with the given message.
pub fn err(msg: String) -> (r: CheckerError)
    ensures
        is_syntax_error(r, msg@),
{
    CheckerError::InvalidContractSyntax(msg)
}

/// The error whose message quotes a part of the text.
fn quoting(before: &str, text: &[char], after: &str) -> (r: CheckerError)
    ensures
        is_syntax_error(r, before@ + text@ + after@),
{
    let mut msg = before.to_owned();
    push_chars(&mut msg, text);
    msg.append(after);
    err(msg)
}

/// The identifier ahead, and what is behind it.
pub fn take_ident<'a>(input: &'a [char]) -> (r: Option<(&'a [char], &'a [char])>)
    ensures
        match r {
            Some((name, rest)) => ident_at(input@) == Some((name@, rest@)),
            None => ident_at(input@) is None,
        },
{
    if input.len() == 0 || !(input[0].is_alphabetic() || input[0] == '_') {
        return None;
    }
    let mut n: usize = 1;
    let ghost tail = input@.skip(1);
    while n < input.len() && (input[n].is_alphanumeric() || input[n] == '_')
        invariant
            1 <= n <= input@.len(),
            word_length(input@.skip(1)) == n - 1 + word_length(input@.skip(n as int)),
        decreases input@.len() - n,
    {
        assert(input@.skip(n as int).skip(1) =~= input@.skip(n + 1));
        n += 1;
    }
    Some((slice_subrange(input, 0, n), slice_subrange(input, n, input.len())))
}

/// The primitive type of a name.
pub fn primitive_from_name(name: &str) -> (r: Option<PrimitiveType>)
    ensures
        r == primitive_named(name@),
{
    if same_text(name, "String") {
        Some(PrimitiveType::String)
    } else if same_text(name, "int") {
        Some(PrimitiveType::Int)
    } else if same_text(name, "float") {
        Some(PrimitiveType::Float)
    } else if same_text(name, "bool") {
        Some(PrimitiveType::Bool)
    } else if same_text(name, "bytes") {
        Some(PrimitiveType::Bytes)
    } else {
        None
    }
}

fn atom_into_type_def(atom: Atom) -> (r: TypeDef)
    ensures
        r@ == atom_type(atom@),
{
    match atom {
        Atom::Primitive(p) => TypeDef::Primitive(p),
        Atom::Object(fields) => TypeDef::Object(fields),
        Atom::List(inner) => TypeDef::List(inner),
        Atom::Unit => TypeDef::Unit,
        Atom::Path { path, inner } => {
            let variants = vec![EnumVariant { path, inner }];
            assert(variants_model(variants@) =~= seq![variants@[0]@]);
            TypeDef::Enum(variants)
        },
    }
}

fn atom_into_enum_variant(atom: Atom) -> (r: Result<EnumVariant, CheckerError>)
    ensures
        match r {
            Ok(v) => atom@ is Path && v@ == atom_variant(atom@),
            Err(e) => !(atom@ is Path) && is_syntax_error(
                e,
                "cannot mix enum variants with other types in a union"@,
            ),
        },
{
    match atom {
        Atom::Path { path, inner } => Ok(EnumVariant { path, inner }),
        _ => Err(err("cannot mix enum variants with other types in a union".to_owned())),
    }
}

/// The enum type of elements that are all variants.
fn variants_of(atoms: Vec<Atom>) -> (r: Result<TypeDef, CheckerError>)
    ensures
        match (r, union_of_variants(atoms_model(atoms@))) {
            (Ok(t), Ok(model)) => t@ == model,
            (Err(e), Err(message)) => is_syntax_error(e, message),
            _ => false,
        },
{
    let ghost models = atoms_model(atoms@);
    let mut rest = atoms;
    let mut variants: Vec<EnumVariant> = Vec::new();
    let n = rest.len();
    for i in 0..n
        invariant
            rest@.len() == n - i,
            models == atoms_model(atoms@),
            n == models.len(),
            atoms_model(rest@) =~= models.skip(i as int),
            variants@.len() == i,
            forall|j: int| 0 <= j < i ==> #[trigger] models[j] is Path,
            forall|j: int| 0 <= j < i ==> (#[trigger] variants@[j])@ == atom_variant(models[j]),
    {
        let ghost before = atoms_model(rest@);
        let atom = rest.remove(0);
        assert(before[0] == atom@ && before[0] == models[i as int]);
        assert(atoms_model(rest@) =~= before.skip(1));
        match atom_into_enum_variant(atom) {
            Ok(v) => variants.push(v),
            Err(e) => {
                return Err(e);
            },
        }
    }
    assert(variants_model(variants@) =~= models.map_values(|atom: AtomModel| atom_variant(atom)));
    Ok(TypeDef::Enum(variants))
}

/// The type of a union.
fn union_into_type_def(atoms: Vec<Atom>) -> (r: Result<TypeDef, CheckerError>)
    requires
        atoms@.len() > 0,
    ensures
        match (r, union_type(atoms_model(atoms@))) {
            (Ok(t), Ok(model)) => t@ == model,
            (Err(e), Err(message)) => is_syntax_error(e, message),
            _ => false,
        },
{
    let ghost models = atoms_model(atoms@);
    let ghost is_other = |atom: AtomModel| !(atom is Unit);
    let mut rest = atoms;
    if rest.len() == 1 {
        let atom = rest.remove(0);
        assert(atom@ == models[0]);
        return Ok(atom_into_type_def(atom));
    }
    let n = rest.len();
    let mut others: Vec<Atom> = Vec::new();
    proof {
        reveal(Seq::filter);
        assert(models.take(0) =~= Seq::<AtomModel>::empty());
        assert(atoms_model(others@) =~= models.take(0).filter(is_other));
    }
    for i in 0..n
        invariant
            rest@.len() == n - i,
            n == models.len(),
            atoms_model(rest@) =~= models.skip(i as int),
            is_other == (|atom: AtomModel| !(atom is Unit)),
            atoms_model(others@) == models.take(i as int).filter(is_other),
            others@.len() <= i,
    {
        let ghost before = atoms_model(rest@);
        let ghost others_before = atoms_model(others@);
        let atom = rest.remove(0);
        proof {
            assert(before[0] == atom@ && before[0] == models[i as int]);
            assert(atoms_model(rest@) =~= before.skip(1));
            reveal(Seq::filter);
            assert(models.take(i + 1).drop_last() =~= models.take(i as int));
        }
        if !matches!(atom, Atom::Unit) {
            others.push(atom);
            assert(atoms_model(others@) =~= others_before.push(models[i as int]));
        }
    }
    assert(models.take(n as int) =~= models);
    let ghost filtered = atoms_model(others@);
    assert(filtered == models.filter(|atom: AtomModel| !(atom is Unit)));
    let units = n - others.len();
    if units > 1 {
        return Err(err("union contains more than one '()' alternative".to_owned()));
    }
    if units == 1 {
        if others.len() == 1 {
            let atom = others.remove(0);
            assert(atom@ == filtered[0]);
            return Ok(TypeDef::Nullable(Box::new(atom_into_type_def(atom))));
        }
        return match variants_of(others) {
            Ok(inner) => Ok(TypeDef::Nullable(Box::new(inner))),
            Err(e) => Err(e),
        };
    }
    proof {
        lemma_filter_all(models, is_other);
    }
    variants_of(others)
}

/// A filter that keeps as many elements as there are keeps all of them.
proof fn lemma_filter_all<T>(s: Seq<T>, keep: spec_fn(T) -> bool)
    ensures
        s.filter(keep).len() <= s.len(),
        s.filter(keep).len() == s.len() ==> s.filter(keep) == s,
    decreases s.len(),
{
    reveal(Seq::filter);
    if s.len() > 0 {
        lemma_filter_all(s.drop_last(), keep);
        if s.filter(keep).len() == s.len() {
            assert(s.filter(keep) =~= s.drop_last().push(s.last()));
            assert(s.drop_last().push(s.last()) =~= s);
        }
    }
}

/// Reads a type (with its `|` unions) and returns the rest of the input.
pub fn parse_type<'a>(input: &'a [char]) -> (r: Result<(TypeDef, &'a [char]), CheckerError>)
    ensures
        is_type_result(r, type_at(input@)),
    decreases input@.len(), 3nat,
{
    proof {
        lemma_trim_start_shortens(input@);
    }
    let start = trimmed_start(input);
    let mut atoms: Vec<Atom> = Vec::new();
    let mut rest: &'a [char] = start;
    proof {
        assert(atoms_model(atoms@) =~= Seq::<AtomModel>::empty());
        lemma_prepend_none(atoms_at(start@));
    }
    loop
        invariant_except_break
            start@ == trim_start(input@),
            start@.len() <= input@.len(),
            rest@.len() <= start@.len(),
            prepend_all(atoms_model(atoms@), atoms_at(rest@)) == atoms_at(start@),
        ensures
            start@ == trim_start(input@),
            start@.len() <= input@.len(),
            atoms@.len() > 0,
            atoms_at(start@) == Ok::<(Seq<AtomModel>, Seq<char>), Seq<char>>(
                (atoms_model(atoms@), rest@),
            ),
        decreases rest@.len(),
    {
        let ghost before = atoms_model(atoms@);
        proof {
            lemma_atom_shortens(rest@);
        }
        match parse_atom(rest) {
            Ok((atom, behind)) => {
                let ghost model = atom@;
                atoms.push(atom);
                assert(atoms_model(atoms@) =~= before.push(model));
                proof {
                    lemma_trim_start_shortens(behind@);
                }
                let next = trimmed_start(behind);
                match after_char(next, '|') {
                    Some(after) => {
                        proof {
                            lemma_trim_start_shortens(after@);
                            lemma_prepend_step(before, model, atoms_at(trim_start(after@)));
                        }
                        rest = trimmed_start(after);
                    },
                    None => {
                        assert(before + seq![model] =~= atoms_model(atoms@));
                        rest = next;
                        break;
                    },
                }
            },
            Err(e) => {
                return Err(e);
            },
        }
    }
    match union_into_type_def(atoms) {
        Ok(t) => Ok((t, rest)),
        Err(e) => Err(e),
    }
}

/// Reads the segments that go on with a path.
fn parse_segments<'a>(input: &'a [char]) -> (r: Result<(Vec<String>, &'a [char]), CheckerError>)
    ensures
        match (r, segments_at(input@)) {
            (Ok((segments, rest)), Ok((models, behind))) => texts(segments@) == models && rest@
                == behind,
            (Err(e), Err(message)) => is_syntax_error(e, message),
            _ => false,
        },
{
    proof {
        reveal_strlit("::");
    }
    let mut segments: Vec<String> = Vec::new();
    let mut rest: &'a [char] = input;
    proof {
        assert(texts(segments@) =~= Seq::<Seq<char>>::empty());
        lemma_prepend_none(segments_at(input@));
    }
    // White space around `::` is passed over: `Status :: Solved`.
    loop
        invariant
            "::"@.len() == 2,
            prepend_all(texts(segments@), segments_at(rest@)) == segments_at(input@),
        decreases rest@.len(),
    {
        let ghost before = texts(segments@);
        proof {
            lemma_trim_start_shortens(rest@);
        }
        match after_prefix(trimmed_start(rest), "::") {
            Some(after) => {
                let start = trimmed_start(after);
                proof {
                    lemma_trim_start_shortens(after@);
                    lemma_ident_shortens(start@);
                }
                match take_ident(start) {
                    Some((segment, behind)) => {
                        segments.push(string_of(segment));
                        assert(texts(segments@) =~= before.push(segment@));
                        proof {
                            lemma_prepend_step(before, segment@, segments_at(behind@));
                        }
                        rest = behind;
                    },
                    None => {
                        return Err(
                            quoting("expected identifier after '::' in: '", rest, "'"),
                        );
                    },
                }
            },
            None => {
                assert(before + Seq::<Seq<char>>::empty() =~= before);
                return Ok((segments, rest));
            },
        }
    }
}

/// Reads one element of a union.
fn parse_atom<'a>(input: &'a [char]) -> (r: Result<(Atom, &'a [char]), CheckerError>)
    ensures
        is_atom_result(r, atom_at(input@)),
    decreases input@.len(), 1nat,
{
    proof {
        lemma_trim_start_shortens(input@);
    }
    let start = trimmed_start(input);
    if let Some(rest) = after_char(start, '{') {
        return match parse_object(rest) {
            Ok((fields, behind)) => Ok((Atom::Object(fields), behind)),
            Err(e) => Err(e),
        };
    }
    if let Some(rest) = after_char(start, '[') {
        return match parse_type(rest) {
            Ok((inner, behind)) => {
                let close = trimmed_start(behind);
                match after_char(close, ']') {
                    Some(behind) => Ok((Atom::List(Box::new(inner)), behind)),
                    None => Err(quoting("expected ']' in: '", close, "'")),
                }
            },
            Err(e) => Err(e),
        };
    }
    if let Some(rest) = after_char(start, '(') {
        let close = trimmed_start(rest);
        return match after_char(close, ')') {
            Some(behind) => Ok((Atom::Unit, behind)),
            None => Err(quoting("expected ')' for unit type in: '(", close, "'")),
        };
    }
    proof {
        lemma_ident_shortens(start@);
    }
    let (first, after_first) = match take_ident(start) {
        Some(taken) => taken,
        None => {
            return Err(quoting("expected a type, found: '", start, "'"));
        },
    };
    proof {
        lemma_segments_shorten(after_first@);
    }
    let (mut path, behind) = match parse_segments(after_first) {
        Ok(parsed) => parsed,
        Err(e) => {
            return Err(e);
        },
    };
    let ghost others = texts(path@);
    path.insert(0, string_of(first));
    assert(texts(path@) =~= seq![first@] + others);
    if path.len() == 1 && !(behind.len() > 0 && behind[0] == '(') {
        if let Some(primitive) = primitive_from_name(path[0].as_str()) {
            return Ok((Atom::Primitive(primitive), behind));
        }
    }
    proof {
        lemma_trim_start_shortens(behind@);
    }
    let rest = trimmed_start(behind);
    if let Some(after) = after_char(rest, '(') {
        return match parse_type(after) {
            Ok((inner, behind)) => {
                let close = trimmed_start(behind);
                match after_char(close, ')') {
                    Some(behind) => Ok((Atom::Path { path, inner: Some(Box::new(inner)) }, behind)),
                    None => Err(quoting("expected ')' in: '", close, "'")),
                }
            },
            Err(e) => Err(e),
        };
    }
    Ok((Atom::Path { path, inner: None }, behind))
}

/// Reads the fields of an object, up to the closing brace.
fn parse_object<'a>(input: &'a [char]) -> (r: Result<
    (Vec<(String, TypeDef)>, &'a [char]),
    CheckerError,
>)
    ensures
        match (r, object_at(input@)) {
            (Ok((fields, rest)), Ok((models, behind))) => fields_model(fields@) == models && rest@
                == behind,
            (Err(e), Err(message)) => is_syntax_error(e, message),
            _ => false,
        },
    decreases input@.len(), 5nat,
{
    proof {
        lemma_trim_start_shortens(input@);
    }
    let start = trimmed_start(input);
    let mut fields: Vec<(String, TypeDef)> = Vec::new();
    assert(fields_model(fields@) =~= Seq::<(Seq<char>, TypeModel)>::empty());
    if let Some(behind) = after_char(start, '}') {
        return Ok((fields, behind));
    }
    let mut rest: &'a [char] = start;
    proof {
        lemma_prepend_none(fields_at(start@));
    }
    loop
        invariant
            rest@.len() <= input@.len(),
            object_at(input@) == fields_at(start@),
            prepend_all(fields_model(fields@), fields_at(rest@)) == fields_at(start@),
        decreases rest@.len(),
    {
        let ghost before = fields_model(fields@);
        proof {
            lemma_ident_shortens(rest@);
        }
        let (name, after_name) = match take_ident(rest) {
            Some(taken) => taken,
            None => {
                return Err(quoting("expected field name in: '", rest, "'"));
            },
        };
        proof {
            lemma_trim_start_shortens(after_name@);
        }
        let after_colon = match after_char(trimmed_start(after_name), ':') {
            Some(after_colon) => after_colon,
            None => {
                return Err(quoting("expected ':' after field '", name, "'"));
            },
        };
        proof {
            lemma_type_shortens(after_colon@);
        }
        let (type_def, behind) = match parse_type(after_colon) {
            Ok(parsed) => parsed,
            Err(e) => {
                return Err(e);
            },
        };
        let ghost field = (name@, type_def@);
        fields.push((string_of(name), type_def));
        assert(fields_model(fields@) =~= before.push(field));
        assert(before + seq![field] =~= before.push(field));
        proof {
            lemma_trim_start_shortens(behind@);
        }
        let close = trimmed_start(behind);
        if let Some(after_comma) = after_char(close, ',') {
            proof {
                lemma_trim_start_shortens(after_comma@);
            }
            let next = trimmed_start(after_comma);
            if let Some(behind) = after_char(next, '}') {
                return Ok((fields, behind));
            }
            proof {
                lemma_prepend_step(before, field, fields_at(next@));
            }
            rest = next;
            continue;
        }
        return match after_char(close, '}') {
            Some(behind) => Ok((fields, behind)),
            None => Err(quoting("expected ',' or '}' in object, found: '", close, "'")),
        };
    }
}

// ---------------------------------------------------------------------------
// Doc-comment contracts.
// ---------------------------------------------------------------------------

/// What a line of a doc-comment says.
#[verifier::ext_equal]
pub enum LineModel {
    /// Nothing: text without an annotation, or an unknown annotation.
    Nothing,
    Param(ParamModel),
    Return(TypeModel),
}

/// Whether a line starts with an annotation: its name, and no more of a name.
pub open spec fn is_annotated(line: Seq<char>, annotation: Seq<char>) -> bool {
    starts_with(line, annotation) && (line.len() > annotation.len() ==> !is_ident_part(
        line[annotation.len() as int],
    ))
}

/// What a line of a doc-comment says. The text behind the type is a
/// description.
pub open spec fn line_meaning(line: Seq<char>) -> Result<LineModel, Seq<char>> {
    if is_annotated(line, "@param"@) {
        match ident_at(trim(line.skip(6))) {
            Some((name, after_name)) => {
                let colon = trim_start(after_name);
                if colon.len() > 0 && colon[0] == ':' {
                    match type_at(trim_start(colon.skip(1))) {
                        Ok((type_def, _)) => Ok(LineModel::Param(ParamModel { name, type_def })),
                        Err(message) => Err(message),
                    }
                } else {
                    Err(
                        "expected ':' after param name '"@ + name + "' in: '"@ + line + "'"@,
                    )
                }
            },
            None => Err("invalid @param syntax: '"@ + line + "'"@),
        }
    } else if is_annotated(line, "@return"@) {
        match type_at(trim_start(line.skip(7))) {
            Ok((type_def, _)) => Ok(LineModel::Return(type_def)),
            Err(message) => Err(message),
        }
    } else {
        Ok(LineModel::Nothing)
    }
}

/// The contract that lines state, after the parameters and the return type
/// that the lines before them stated. Of several return types the last one
/// counts.
pub open spec fn contract_from(
    lines: Seq<Seq<char>>,
    params: Seq<ParamModel>,
    return_type: Option<TypeModel>,
) -> Result<ContractModel, Seq<char>>
    decreases lines.len(),
{
    if lines.len() == 0 {
        match return_type {
            Some(return_type) => Ok(ContractModel { params, return_type }),
            None => Err("missing @return annotation"@),
        }
    } else {
        match line_meaning(trim(lines[0])) {
            Ok(LineModel::Nothing) => contract_from(lines.skip(1), params, return_type),
            Ok(LineModel::Param(param)) => contract_from(
                lines.skip(1),
                params.push(param),
                return_type,
            ),
            Ok(LineModel::Return(type_def)) => contract_from(
                lines.skip(1),
                params,
                Some(type_def),
            ),
            Err(message) => Err(message),
        }
    }
}

/// The contract that the text of a doc-comment states.
pub open spec fn contract_of(text: Seq<char>) -> Result<ContractModel, Seq<char>> {
    contract_from(lines(text), Seq::empty(), None)
}

/// Whether a result is the contract that the specification gives, or the
/// error with the same message.
pub open spec fn is_contract_result(
    r: Result<Contract, CheckerError>,
    wanted: Result<ContractModel, Seq<char>>,
) -> bool {
    match (r, wanted) {
        (Ok(contract), Ok(model)) => contract@ == model,
        (Err(e), Err(message)) => is_syntax_error(e, message),
        _ => false,
    }
}

/// What a line of a doc-comment says.
enum Line {
    Nothing,
    Param(ParamDef),
    Return(TypeDef),
}

impl View for Line {
    type V = LineModel;

    closed spec fn view(&self) -> LineModel {
        match self {
            Line::Nothing => LineModel::Nothing,
            Line::Param(param) => LineModel::Param(param@),
            Line::Return(type_def) => LineModel::Return(type_def@),
        }
    }
}

/// What is behind the annotation that a line starts with.
fn after_annotation<'a>(line: &'a [char], annotation: &str) -> (r: Option<&'a [char]>)
    ensures
        match r {
            Some(rest) => is_annotated(line@, annotation@) && rest@ == line@.skip(
                annotation@.len() as int,
            ),
            None => !is_annotated(line@, annotation@),
        },
{
    match after_prefix(line, annotation) {
        Some(rest) => {
            if rest.len() > 0 {
                assert(rest@[0] == line@[annotation@.len() as int]);
                if rest[0].is_alphanumeric() || rest[0] == '_' {
                    return None;
                }
            }
            Some(rest)
        },
        None => None,
    }
}

/// Reads a line of a doc-comment.
fn parse_line(line: &[char]) -> (r: Result<Line, CheckerError>)
    ensures
        match (r, line_meaning(line@)) {
            (Ok(meaning), Ok(model)) => meaning@ == model,
            (Err(e), Err(message)) => is_syntax_error(e, message),
            _ => false,
        },
{
    proof {
        reveal_strlit("@param");
        reveal_strlit("@return");
    }
    if let Some(rest) = after_annotation(line, "@param") {
        let (name, after_name) = match take_ident(trimmed(rest)) {
            Some(taken) => taken,
            None => {
                return Err(quoting("invalid @param syntax: '", line, "'"));
            },
        };
        let after_colon = match after_char(trimmed_start(after_name), ':') {
            Some(after_colon) => after_colon,
            None => {
                let mut msg = "expected ':' after param name '".to_owned();
                push_chars(&mut msg, name);
                msg.append("' in: '");
                push_chars(&mut msg, line);
                msg.append("'");
                return Err(err(msg));
            },
        };
        return match parse_type(trimmed_start(after_colon)) {
            Ok((type_def, _)) => Ok(Line::Param(ParamDef { name: string_of(name), type_def })),
            Err(e) => Err(e),
        };
    }
    if let Some(rest) = after_annotation(line, "@return") {
        return match parse_type(trimmed_start(rest)) {
            Ok((type_def, _)) => Ok(Line::Return(type_def)),
            Err(e) => Err(e),
        };
    }
    Ok(Line::Nothing)
}

/// Reads the text of a doc-comment (without its `///`, the lines joined with
/// line feeds) as a contract.
///
/// A line reads `@param name: Type description` or `@return Type
/// description`; the description is optional and does not count. Lines
/// without an annotation and unknown annotations are passed over.
pub fn parse(text: &str) -> (r: Result<Contract, CheckerError>)
    ensures
        is_contract_result(r, contract_of(text@)),
{
    let chars = chars_of(text);
    let all = split_lines(chars.as_slice());
    let ghost line_texts = slice_texts(all@);
    let mut params: Vec<ParamDef> = Vec::new();
    let mut return_type: Option<TypeDef> = None;
    assert(params_model(params@) =~= Seq::<ParamModel>::empty());
    assert(line_texts.skip(0) =~= line_texts);
    for i in 0..all.len()
        invariant
            line_texts == slice_texts(all@),
            contract_of(text@) == contract_from(
                line_texts.skip(i as int),
                params_model(params@),
                option_model(return_type),
            ),
    {
        assert(line_texts[i as int] == all@[i as int]@);
        assert(line_texts.skip(i as int).skip(1) =~= line_texts.skip(i + 1));
        let ghost before = params_model(params@);
        match parse_line(trimmed(all[i])) {
            Ok(Line::Nothing) => {},
            Ok(Line::Param(param)) => {
                let ghost model = param@;
                params.push(param);
                assert(params_model(params@) =~= before.push(model));
            },
            Ok(Line::Return(type_def)) => {
                return_type = Some(type_def);
            },
            Err(e) => {
                return Err(e);
            },
        }
    }
    match return_type {
        Some(return_type) => Ok(Contract { params, return_type }),
        None => Err(err("missing @return annotation".to_owned())),
    }
}

// ---------------------------------------------------------------------------
// Signatures.
// ---------------------------------------------------------------------------

/// The parameters ahead, at least one, up to the closing parenthesis.
pub open spec fn params_at(s: Seq<char>) -> Result<(Seq<ParamModel>, Seq<char>), Seq<char>>
    decreases s.len(),
{
    match ident_at(s) {
        Some((name, after_name)) => {
            let colon = trim_start(after_name);
            if colon.len() > 0 && colon[0] == ':' {
                match type_at(trim_start(colon.skip(1))) {
                    Ok((type_def, behind)) => {
                        let param = ParamModel { name, type_def };
                        let rest = trim_start(behind);
                        if rest.len() > 0 && rest[0] == ',' {
                            let next = trim_start(rest.skip(1));
                            if next.len() > 0 && next[0] == ')' {
                                Ok((seq![param], next.skip(1)))
                            } else if next.len() < s.len() {
                                prepend(param, params_at(next))
                            } else {
                                Err(Seq::empty())
                            }
                        } else if rest.len() > 0 && rest[0] == ')' {
                            Ok((seq![param], rest.skip(1)))
                        } else {
                            Err("expected ',' or ')' in params, found: '"@ + rest + "'"@)
                        }
                    },
                    Err(message) => Err(message),
                }
            } else {
                Err("expected ':' after parameter '"@ + name + "'"@)
            }
        },
        None => Err("expected parameter name in: '"@ + s + "'"@),
    }
}

/// The parameter list ahead, behind its opening parenthesis.
pub open spec fn param_list_at(s: Seq<char>) -> Result<(Seq<ParamModel>, Seq<char>), Seq<char>> {
    let start = trim_start(s);
    if start.len() > 0 && start[0] == ')' {
        Ok((Seq::empty(), start.skip(1)))
    } else {
        params_at(start)
    }
}

/// The contract that a signature `(name: Type, ...) -> Type` states.
pub open spec fn signature_of(signature: Seq<char>) -> Result<ContractModel, Seq<char>> {
    let start = trim_start(signature);
    if start.len() > 0 && start[0] == '(' {
        match param_list_at(start.skip(1)) {
            Ok((params, behind)) => if starts_with(trim_start(behind), "->"@) {
                match type_at(trim_start(trim_start(behind).skip(2))) {
                    Ok((return_type, rest)) => if trim(rest).len() == 0 {
                        Ok(ContractModel { params, return_type })
                    } else {
                        Err("unexpected trailing tokens after return type: '"@ + rest + "'"@)
                    },
                    Err(message) => Err(message),
                }
            } else {
                Err("expected '->' after params in: '"@ + behind + "'"@)
            },
            Err(message) => Err(message),
        }
    } else {
        Err("expected '(' at start of signature: '"@ + start + "'"@)
    }
}

/// The type that a text denotes as a whole.
pub open spec fn whole_type(text: Seq<char>) -> Result<TypeModel, Seq<char>> {
    match type_at(text) {
        Ok((t, rest)) => if trim(rest).len() == 0 {
            Ok(t)
        } else {
            Err("unexpected trailing tokens after type: '"@ + rest + "'"@)
        },
        Err(message) => Err(message),
    }
}

/// Reads a parameter list behind its opening parenthesis.
fn parse_params<'a>(input: &'a [char]) -> (r: Result<(Vec<ParamDef>, &'a [char]), CheckerError>)
    ensures
        match (r, param_list_at(input@)) {
            (Ok((params, rest)), Ok((models, behind))) => params_model(params@) == models && rest@
                == behind,
            (Err(e), Err(message)) => is_syntax_error(e, message),
            _ => false,
        },
{
    let start = trimmed_start(input);
    let mut params: Vec<ParamDef> = Vec::new();
    assert(params_model(params@) =~= Seq::<ParamModel>::empty());
    if let Some(behind) = after_char(start, ')') {
        return Ok((params, behind));
    }
    let mut rest: &'a [char] = start;
    proof {
        lemma_prepend_none(params_at(start@));
    }
    loop
        invariant
            param_list_at(input@) == params_at(start@),
            prepend_all(params_model(params@), params_at(rest@)) == params_at(start@),
        decreases rest@.len(),
    {
        let ghost before = params_model(params@);
        proof {
            lemma_ident_shortens(rest@);
        }
        let (name, after_name) = match take_ident(rest) {
            Some(taken) => taken,
            None => {
                return Err(quoting("expected parameter name in: '", rest, "'"));
            },
        };
        proof {
            lemma_trim_start_shortens(after_name@);
        }
        let after_colon = match after_char(trimmed_start(after_name), ':') {
            Some(after_colon) => after_colon,
            None => {
                return Err(quoting("expected ':' after parameter '", name, "'"));
            },
        };
        let type_start = trimmed_start(after_colon);
        proof {
            lemma_trim_start_shortens(after_colon@);
            lemma_type_shortens(type_start@);
        }
        let (type_def, behind) = match parse_type(type_start) {
            Ok(parsed) => parsed,
            Err(e) => {
                return Err(e);
            },
        };
        let ghost param = ParamModel { name: name@, type_def: type_def@ };
        params.push(ParamDef { name: string_of(name), type_def });
        assert(params_model(params@) =~= before.push(param));
        assert(before + seq![param] =~= before.push(param));
        proof {
            lemma_trim_start_shortens(behind@);
        }
        let close = trimmed_start(behind);
        if let Some(after_comma) = after_char(close, ',') {
            proof {
                lemma_trim_start_shortens(after_comma@);
            }
            let next = trimmed_start(after_comma);
            if let Some(behind) = after_char(next, ')') {
                return Ok((params, behind));
            }
            proof {
                lemma_prepend_step(before, param, params_at(next@));
            }
            rest = next;
            continue;
        }
        return match after_char(close, ')') {
            Some(behind) => Ok((params, behind)),
            None => Err(quoting("expected ',' or ')' in params, found: '", close, "'")),
        };
    }
}

/// Reads a signature of the form `(name: Type, ...) -> Type`.
pub fn parse_signature(signature: &str) -> (r: Result<Contract, CheckerError>)
    ensures
        is_contract_result(r, signature_of(signature@)),
{
    proof {
        reveal_strlit("->");
    }
    let chars = chars_of(signature);
    let start = trimmed_start(chars.as_slice());
    let inside = match after_char(start, '(') {
        Some(inside) => inside,
        None => {
            return Err(quoting("expected '(' at start of signature: '", start, "'"));
        },
    };
    let (params, behind) = match parse_params(inside) {
        Ok(parsed) => parsed,
        Err(e) => {
            return Err(e);
        },
    };
    let after_arrow = match after_prefix(trimmed_start(behind), "->") {
        Some(after_arrow) => after_arrow,
        None => {
            return Err(quoting("expected '->' after params in: '", behind, "'"));
        },
    };
    let (return_type, rest) = match parse_type(trimmed_start(after_arrow)) {
        Ok(parsed) => parsed,
        Err(e) => {
            return Err(e);
        },
    };
    if trimmed(rest).len() > 0 {
        return Err(quoting("unexpected trailing tokens after return type: '", rest, "'"));
    }
    Ok(Contract { params, return_type })
}

impl Contract {
    /// Reads a signature of the form `(name: Type, ...) -> Type` as a
    /// contract. The notation of types is that of doc-comment contracts.
    pub fn parse(signature: &str) -> (r: Result<Contract, CheckerError>)
        ensures
            is_contract_result(r, signature_of(signature@)),
    {
        parse_signature(signature)
    }
}

impl TypeDef {
    /// Reads a type in contract notation.
    pub fn parse(text: &str) -> (r: Result<TypeDef, CheckerError>)
        ensures
            match (r, whole_type(text@)) {
                (Ok(t), Ok(model)) => t@ == model,
                (Err(e), Err(message)) => is_syntax_error(e, message),
                _ => false,
            },
    {
        let chars = chars_of(text);
        let (t, rest) = match parse_type(chars.as_slice()) {
            Ok(parsed) => parsed,
            Err(e) => {
                return Err(e);
            },
        };
        if trimmed(rest).len() > 0 {
            return Err(quoting("unexpected trailing tokens after type: '", rest, "'"));
        }
        Ok(t)
    }
}

} // verus!
