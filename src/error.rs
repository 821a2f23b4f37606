use vstd::prelude::*;

verus! {

/// Why a poll or a parse failed.
#[derive(Clone, Debug, PartialEq, Eq)]
pub enum DiskError {
    /// A line has the wrong number of fields, or a value is not a decimal
    /// integer. Holds the offending text: the line or the value (empty when
    /// the input was not text).
    MalformedInput(Vec<u8>),
    /// A disk-statistics record does not have exactly fourteen fields: the
    /// kernel is older than the supported statistics format.
    UnsupportedKernelFormat,
    /// A source of data could not be read at all.
    IOUnavailable,
    /// A counter does not fit in 64 bits once converted or summed.
    CounterOverflow,
}

/// A `DiskError` with the offending text as a sequence of bytes.
pub enum DiskErrorView {
    MalformedInput(Seq<u8>),
    UnsupportedKernelFormat,
    IOUnavailable,
    CounterOverflow,
}

impl View for DiskError {
    type V = DiskErrorView;

    open spec fn view(&self) -> DiskErrorView {
        match self {
            DiskError::MalformedInput(t) => DiskErrorView::MalformedInput(t@),
            DiskError::UnsupportedKernelFormat => DiskErrorView::UnsupportedKernelFormat,
            DiskError::IOUnavailable => DiskErrorView::IOUnavailable,
            DiskError::CounterOverflow => DiskErrorView::CounterOverflow,
        }
    }
}

/// The view of a result's error, the `Ok` value kept as it is.
pub open spec fn err_view<T>(r: Result<T, DiskError>) -> Result<T, DiskErrorView> {
    match r {
        Ok(v) => Ok(v),
        Err(e) => Err(e@),
    }
}

} // verus!
