use vstd::prelude::*;

verus! {

/// `chrono::Local::now()` written with its `Display` impl: the date, a space,
/// the time, a space and the offset (`%Y-%m-%d %H:%M:%S%.f %:z`). Which
/// moment it shows depends on the clock and the local time zone and is not
/// stated; its shape is: the text is not empty and holds no line break.
#[verifier::external_body]
pub(crate) fn local_now_text() -> (r: String)
    ensures
        r@.len() > 0,
        !r@.contains('\n'),
{
    chrono::Local::now().to_string()
}

} // verus!
