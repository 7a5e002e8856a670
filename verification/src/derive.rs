//! What `#[derive(MatFile)]` generates for a struct: a `write_contents` that
//! writes the default header and then each field as a container named after
//! the field.
use vstd::prelude::*;

verus! {

/// The struct that the derive is applied to.
pub struct DeriveInput {
    /// The struct's name.
    pub ident: String,
    /// The text of the generics after `impl` (`<'a, T: Bound>`), as
    /// `syn::Generics::split_for_impl` gives them.
    pub impl_generics: String,
    /// The text of the generics after the struct's name (`<'a, T>`).
    pub ty_generics: String,
    /// The text of the `where` clause, empty where there is none.
    pub where_clause: String,
    /// The struct's fields, in order.
    pub fields: Vec<FieldInfo>,
}

/// The generated
/// `impl #impl_generics mat5::MatFile for #ident #ty_generics #where_clause`
/// whose `write_contents` runs `body`.
pub struct DerivedImpl {
    pub ident: String,
    pub impl_generics: String,
    pub ty_generics: String,
    pub where_clause: String,
    pub body: Vec<WriteStep>,
}

/// A field of the struct that the derive is applied to.
pub struct FieldInfo {
    /// The field's name; `None` for a field of a tuple struct.
    pub ident: Option<String>,
    /// Whether the field is marked `#[mat5(deref)]`: it is dereferenced with
    /// `std::ops::Deref` before it is written.
    pub deref: bool,
}

/// A statement of the generated `write_contents`.
pub enum WriteStep {
    /// `mat5::write_default_header(&mut writer)?;`
    WriteDefaultHeader,
    /// `mat5::Container::write_container(&self.field, &mut writer, "field")?;`,
    /// through `Deref::deref` where `deref` is set.
    WriteContainer { field: String, deref: bool },
    /// `Ok(())`
    ReturnOk,
}

/// Why no implementation can be derived.
#[derive(Clone, Copy, Debug, PartialEq, Eq, Structural)]
pub enum DeriveError {
    /// A field has no name.
    UnnamedField,
}

impl DeriveError {
    /// The compile error that the derive reports.
    pub fn message(&self) -> (r: String)
        ensures
            r@ == "Tuple structs are not accepted. Each field must be named"@,
    {
        String::from_str("Tuple structs are not accepted. Each field must be named")
    }
}

/// `steps` is the body generated for `fields`: the header, one container
/// per field in order, and `Ok(())`.
pub open spec fn body_for(steps: Seq<WriteStep>, fields: Seq<(Seq<char>, bool)>) -> bool {
    &&& steps.len() == fields.len() + 2
    &&& steps[0] is WriteDefaultHeader
    &&& steps.last() is ReturnOk
    &&& forall|i: int|
        0 <= i < fields.len() ==> match #[trigger] steps[i + 1] {
            WriteStep::WriteContainer { field, deref } => field@ == fields[i].0 && deref
                == fields[i].1,
            _ => false,
        }
}

/// creates all the writes of `MatFile::write_contents` for the given named
/// fields
pub fn create_trait_function_body(input: Vec<(String, bool)>) -> (out: Vec<WriteStep>)
    ensures
        body_for(out@, input@.map_values(|f: (String, bool)| (f.0@, f.1))),
{
    let ghost fields = input@.map_values(|f: (String, bool)| (f.0@, f.1));
    let mut out: Vec<WriteStep> = Vec::new();
    out.push(WriteStep::WriteDefaultHeader);
    let mut input = input;
    let ghost original = input@;
    let mut i: usize = 0;
    let n = input.len();
    // take the fields from the back, so that each can be moved out
    let mut taken: Vec<(String, bool)> = Vec::new();
    while input.len() > 0
        invariant
            taken@.len() + input@.len() == n,
            n == original.len(),
            input@ == original.take(input@.len() as int),
            forall|k: int| 0 <= k < taken@.len() ==> #[trigger] taken@[k] == original[n - 1 - k],
        decreases input@.len(),
    {
        let f = input.pop().unwrap();
        taken.push(f);
        assert(input@ =~= original.take(input@.len() as int));
    }
    while i < n
        invariant
            i <= n,
            n == original.len(),
            fields == original.map_values(|f: (String, bool)| (f.0@, f.1)),
            taken@.len() == n - i,
            forall|k: int| 0 <= k < taken@.len() ==> #[trigger] taken@[k] == original[n - 1 - k],
            out@.len() == i + 1,
            out@[0] is WriteDefaultHeader,
            forall|k: int|
                0 <= k < i ==> match #[trigger] out@[k + 1] {
                    WriteStep::WriteContainer { field, deref } => field@ == fields[k].0 && deref
                        == fields[k].1,
                    _ => false,
                },
        decreases n - i,
    {
        let (field, deref) = taken.pop().unwrap();
        assert(field@ == fields[i as int].0);
        out.push(WriteStep::WriteContainer { field, deref });
        i = i + 1;
    }
    out.push(WriteStep::ReturnOk);
    out
}

/// The names of `fields` and their `deref` marks, where every field is
/// named.
pub open spec fn named_fields(fields: Seq<FieldInfo>) -> Seq<(Seq<char>, bool)> {
    fields.map_values(|f: FieldInfo| (f.ident.unwrap()@, f.deref))
}

/// The body of `write_contents` for a struct with the given fields: every
/// field must be named.
fn derive_body(fields: Vec<FieldInfo>) -> (r: Result<Vec<WriteStep>, DeriveError>)
    ensures
        match r {
            Ok(steps) => (forall|i: int| 0 <= i < fields@.len() ==> #[trigger] fields@[i].ident is Some)
                && body_for(steps@, named_fields(fields@)),
            Err(e) => (exists|i: int| 0 <= i < fields@.len() && #[trigger] fields@[i].ident is None)
                && e == DeriveError::UnnamedField,
        },
{
    let ghost original = fields@;
    let mut named: Vec<(String, bool)> = Vec::new();
    let mut remaining = fields;
    // move the fields out from the back, then handle them from the front
    let mut reversed: Vec<FieldInfo> = Vec::new();
    let n = remaining.len();
    while remaining.len() > 0
        invariant
            reversed@.len() + remaining@.len() == n,
            n == original.len(),
            remaining@ == original.take(remaining@.len() as int),
            forall|k: int| 0 <= k < reversed@.len() ==> #[trigger] reversed@[k] == original[n - 1 - k],
        decreases remaining@.len(),
    {
        let f = remaining.pop().unwrap();
        reversed.push(f);
        assert(remaining@ =~= original.take(remaining@.len() as int));
    }
    let mut i: usize = 0;
    while i < n
        invariant
            i <= n,
            n == original.len(),
            original == fields@,
            reversed@.len() == n - i,
            forall|k: int| 0 <= k < reversed@.len() ==> #[trigger] reversed@[k] == original[n - 1 - k],
            named@.len() == i,
            forall|k: int| 0 <= k < i ==> #[trigger] original[k].ident is Some,
            forall|k: int|
                0 <= k < i ==> #[trigger] named@[k] == (original[k].ident.unwrap(), original[k].deref),
        decreases n - i,
    {
        let ghost last_index = reversed@.len() - 1;
        assert(reversed@[last_index] == original[i as int]);
        let f = reversed.pop().unwrap();
        assert(f == original[i as int]);
        match f.ident {
            Some(ident) => {
                named.push((ident, f.deref));
            },
            None => {
                assert(original[i as int].ident is None);
                assert(fields@[i as int].ident is None);
                return Err(DeriveError::UnnamedField);
            },
        }
        i = i + 1;
    }
    let ghost input = named@;
    let steps = create_trait_function_body(named);
    assert(input.map_values(|f: (String, bool)| (f.0@, f.1)) =~= named_fields(original));
    Ok(steps)
}

/// Derives `MatFile` for a struct: the impl is for the struct's name with
/// its generics and `where` clause, and its body writes the header and then
/// each field; every field must be named.
pub fn derive(input: DeriveInput) -> (r: Result<DerivedImpl, DeriveError>)
    ensures
        match r {
            Ok(d) => {
                &&& d.ident@ == input.ident@
                &&& d.impl_generics@ == input.impl_generics@
                &&& d.ty_generics@ == input.ty_generics@
                &&& d.where_clause@ == input.where_clause@
                &&& forall|i: int|
                    0 <= i < input.fields@.len() ==> #[trigger] input.fields@[i].ident is Some
                &&& body_for(d.body@, named_fields(input.fields@))
            },
            Err(e) => (exists|i: int|
                0 <= i < input.fields@.len() && #[trigger] input.fields@[i].ident is None) && e
                == DeriveError::UnnamedField,
        },
{
    let DeriveInput { ident, impl_generics, ty_generics, where_clause, fields } = input;
    let body = derive_body(fields)?;
    Ok(DerivedImpl { ident, impl_generics, ty_generics, where_clause, body })
}

} // verus!
