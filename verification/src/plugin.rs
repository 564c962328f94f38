use vstd::prelude::*;

verus! {

/// What a plugin tells hosts about itself.
#[derive(Copy, Clone, Debug, PartialEq, Eq)]
pub struct PluginInfo<'a> {
    pub name: &'a str,
    pub version: &'a str,
    pub vendor: &'a str,
    pub url: &'a str,
    pub email: &'a str,
}

/// What a plugin's `info` function is handed to describe the plugin.
pub trait BuildInfo {
    fn info(self, info: PluginInfo);
}

/// Types that may be sent to and shared between threads.
pub trait RequireSendSync: Send + Sync {
}

/// The host as a VST3 plugin sees it.
#[derive(Copy, Clone, Debug, PartialEq, Eq)]
pub struct Vst3Host {}

impl Vst3Host {
    pub fn new() -> (r: Vst3Host)
        ensures
            r == (Vst3Host {}),
    {
        Vst3Host {}
    }
}

/// The host as a CLAP plugin sees it.
#[derive(Copy, Clone, Debug, PartialEq, Eq)]
pub struct ClapHost {}

} // verus!
