//! The settings of an engine and their builder.

use vstd::prelude::*;

verus! {

/// Worker threads used when the configuration asks for the default (zero).
pub const DEFAULT_INGESTER_THREADS: usize = 4;

/// Store size bound of a fresh configuration: 32 GiB.
pub const DEFAULT_MAPSIZE: u64 = 34359738368;

/// The plain settings of an engine, fixed for as long as the engine is open.
#[derive(Clone, Copy, Debug, PartialEq, Eq, Structural)]
pub struct ConfigValues {
    /// Whether the host installed an acceptance filter. Without one every
    /// validated event is accepted.
    pub ingest_filter: bool,
    /// The host's token for the acceptance filter, handed to it with every
    /// event and never read by the engine.
    pub filter_context: Option<u64>,
    /// Bit set of behaviour toggles.
    pub flags: i32,
    /// Requested worker threads; zero asks for the default.
    pub ingester_threads: i32,
    /// Upper bound, in bytes, on what the store may hold.
    pub mapsize: u64,
}

/// Builder for the settings of an engine.
#[derive(Clone, Copy, Debug)]
pub struct NdbConfig {
    pub config: ConfigValues,
}

impl NdbConfig {
    /// The default policy: no acceptance filter, no flags, the default
    /// number of worker threads and a 32 GiB store bound.
    pub fn new() -> (cfg: Self)
        ensures
            cfg.config == (ConfigValues {
                ingest_filter: false,
                filter_context: None,
                flags: 0,
                ingester_threads: 0,
                mapsize: DEFAULT_MAPSIZE,
            }),
    {
        NdbConfig {
            config: ConfigValues {
                ingest_filter: false,
                filter_context: None,
                flags: 0,
                ingester_threads: 0,
                mapsize: DEFAULT_MAPSIZE,
            },
        }
    }

    /// Replaces the behaviour flags and leaves every other setting alone.
    pub fn set_flags(&mut self, flags: i32) -> (ret: &mut Self)
        ensures
            ret.config == (ConfigValues { flags: flags, ..old(self).config }),
            *final(self) == *final(ret),
    {
        self.config.flags = flags;
        self
    }

    /// Replaces the requested worker thread count and leaves every other
    /// setting alone.
    pub fn set_ingester_threads(&mut self, threads: i32) -> (ret: &mut Self)
        ensures
            ret.config == (ConfigValues { ingester_threads: threads, ..old(self).config }),
            *final(self) == *final(ret),
    {
        self.config.ingester_threads = threads;
        self
    }

    /// Replaces the store size bound and leaves every other setting alone.
    pub fn set_mapsize(&mut self, bytes: u64) -> (ret: &mut Self)
        ensures
            ret.config == (ConfigValues { mapsize: bytes, ..old(self).config }),
            *final(self) == *final(ret),
    {
        self.config.mapsize = bytes;
        self
    }

    /// Declares whether an acceptance filter is installed and leaves every
    /// other setting alone.
    pub fn set_ingest_filter(&mut self, installed: bool) -> (ret: &mut Self)
        ensures
            ret.config == (ConfigValues { ingest_filter: installed, ..old(self).config }),
            *final(self) == *final(ret),
    {
        self.config.ingest_filter = installed;
        self
    }

    /// Replaces the token handed to the acceptance filter and leaves every
    /// other setting alone.
    pub fn set_filter_context(&mut self, context: Option<u64>) -> (ret: &mut Self)
        ensures
            ret.config == (ConfigValues { filter_context: context, ..old(self).config }),
            *final(self) == *final(ret),
    {
        self.config.filter_context = context;
        self
    }

    /// Borrows the settings as the engine reads them when it opens.
    pub fn as_ptr(&self) -> (values: &ConfigValues)
        ensures
            *values == self.config,
    {
        &self.config
    }

    /// The number of worker threads this configuration stands for, or
    /// `None` where the requested count is negative.
    pub fn worker_threads(&self) -> (n: Option<usize>)
        ensures
            self.config.ingester_threads < 0 <==> n is None,
            self.config.ingester_threads == 0 ==> n == Some(DEFAULT_INGESTER_THREADS),
            self.config.ingester_threads > 0 ==> n == Some(self.config.ingester_threads as usize),
    {
        if self.config.ingester_threads < 0 {
            None
        } else if self.config.ingester_threads == 0 {
            Some(DEFAULT_INGESTER_THREADS)
        } else {
            Some(self.config.ingester_threads as usize)
        }
    }
}

} // verus!
