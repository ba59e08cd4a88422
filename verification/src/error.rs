use vstd::prelude::*;

verus! {

/// Why an archive could not be searched.
#[derive(Clone, Copy, Debug, PartialEq, Eq, Structural)]
pub enum EpubError {
    /// The file could not be opened or read.
    Unreadable,
    /// The file is not a zip archive.
    NotAnArchive,
    /// The archive has no container descriptor.
    ContainerMissing,
    /// A document ends in an XML error where its content was needed.
    MalformedXml,
    /// The container descriptor names no package document.
    MalformedContainer,
    /// The archive does not hold the package document that its container names.
    PackageMissing,
    /// The package document lacks its manifest, its spine, the spine's `toc`
    /// attribute, or the manifest item that this attribute names.
    MalformedPackage,
    /// The navigation document is missing or is cut short.
    MalformedNavigation,
}

} // verus!
