use vstd::prelude::*;

verus! {

/// A command sent by the host to the editor.
pub enum Message {
    /// Registers a map under `id`; an existing entry is replaced only when
    /// `overwrite` is set.
    UploadMapInformation { id: String, url: String, overwrite: bool },
    /// Makes the catalog's map `id` the current one.
    DisplayMap { id: String },
}

} // verus!
