use vstd::prelude::*;

verus! {

/// Global, runtime opt-in flags for behavioral extensions that are not tied to a
/// per-entity configuration (such as cross-subsystem late-attach handling).
///
/// Every flag defaults to `false`: no extension is on unless asked for.
#[derive(Clone, Copy, Debug, PartialEq, Eq, Structural)]
pub struct ForkExtensions {
    /// Seed prediction/interpolation history when the predicted or interpolated marker
    /// is added *late* (after the component or its confirmed copy), rather than only on
    /// the canonical insertion order.
    pub late_attach_init: bool,
}

impl Default for ForkExtensions {
    /// Every extension off.
    fn default() -> (r: Self)
        ensures
            !r.late_attach_init,
    {
        Self { late_attach_init: false }
    }
}

impl ForkExtensions {
    /// Every extension enabled.
    pub fn all() -> (r: Self)
        ensures
            r.late_attach_init,
    {
        Self { late_attach_init: true }
    }
}

/// Late-attach initialization is on: a configuration is present and enables it.
pub open spec fn late_attach_on(fork: Option<&ForkExtensions>) -> bool {
    fork matches Some(f) && f.late_attach_init
}

/// Whether late-attach initialization is enabled; an absent configuration means
/// every extension is off.
pub fn late_attach_init_enabled(fork: Option<&ForkExtensions>) -> (r: bool)
    ensures
        r == late_attach_on(fork),
{
    match fork {
        Some(f) => f.late_attach_init,
        None => false,
    }
}

/// With the preset (`ForkExtensions::all`, whose result enables late-attach
/// initialization) the extension is on; with the default (which disables it) or with no
/// configuration at all it is off.
pub proof fn law_preset_and_default(on: ForkExtensions, off: ForkExtensions)
    requires
        on.late_attach_init,
        !off.late_attach_init,
    ensures
        late_attach_on(Some(&on)),
        !late_attach_on(Some(&off)),
        !late_attach_on(None),
{
}

} // verus!
