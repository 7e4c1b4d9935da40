use vstd::prelude::*;

verus! {

/// A classified diagnostic; the same shape serves fatal errors and warnings.
pub enum BuildError {
    /// An entry specifier that no resolver could map to a module.
    UnresolvedEntry { specifier: String },
    /// A declared entry that resolved to an external target.
    EntryCannotBeExternal { specifier: String },
    /// An import specifier of a module that could not be resolved.
    UnresolvedImport { specifier: String, importer: String },
    /// A module whose content could not be loaded or parsed.
    LoadFailed { path: String, reason: String },
    /// Any other diagnostic, carried as text.
    Message { text: String },
}

impl BuildError {
    pub fn entry_cannot_be_external(specifier: &String) -> (r: BuildError)
        ensures
            r == (BuildError::EntryCannotBeExternal { specifier: *specifier }),
    {
        BuildError::EntryCannotBeExternal { specifier: specifier.clone() }
    }

    /// Whether this diagnostic names the given specifier as a rejected entry.
    pub fn is_entry_cannot_be_external(&self, specifier: &String) -> (r: bool)
        ensures
            r == (self is EntryCannotBeExternal && self->EntryCannotBeExternal_specifier@
                == specifier@),
    {
        match self {
            BuildError::EntryCannotBeExternal { specifier: s } => *s == *specifier,
            _ => false,
        }
    }
}

/// An accumulator of the failures among a set of independent operations.
pub struct BatchedErrors {
    pub errors: Vec<BuildError>,
}

pub type BatchedResult<T> = Result<T, BatchedErrors>;

impl BatchedErrors {
    pub fn new() -> (r: BatchedErrors)
        ensures
            r.errors@ == Seq::<BuildError>::empty(),
    {
        BatchedErrors { errors: Vec::new() }
    }

    /// Passes a success through; keeps an error and yields nothing for it.
    pub fn take_err_from<T>(&mut self, item: Result<T, BuildError>) -> (r: Option<T>)
        ensures
            match item {
                Ok(v) => r == Some(v) && final(self).errors@ == old(self).errors@,
                Err(e) => r is None && final(self).errors@ == old(self).errors@.push(e),
            },
    {
        match item {
            Ok(v) => Some(v),
            Err(e) => {
                self.errors.push(e);
                None
            },
        }
    }

    /// Appends every error of `more`, in order.
    pub fn extend(&mut self, more: Vec<BuildError>)
        ensures
            final(self).errors@ == old(self).errors@ + more@,
    {
        let mut more = more;
        self.errors.append(&mut more);
    }

    pub fn is_empty(&self) -> (r: bool)
        ensures
            r == (self.errors@.len() == 0),
    {
        self.errors.len() == 0
    }

    pub fn len(&self) -> (r: usize)
        ensures
            r == self.errors@.len(),
    {
        self.errors.len()
    }
}

} // verus!
