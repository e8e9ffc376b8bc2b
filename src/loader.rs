//! Bookkeeping of a loader of biomedical graph data: how many nodes and
//! edges it has brought in. Reading and parsing the files is done by the
//! caller, which reports each batch here.
use vstd::prelude::*;

verus! {

/// Counts of nodes and edges loaded so far.
pub struct BioGraphLoader {
    pub nodes_loaded: usize,
    pub edges_loaded: usize,
}

/// A snapshot of a loader's counts.
#[derive(Debug, Clone, Copy, PartialEq, Eq, Structural)]
pub struct LoaderStats {
    pub nodes_loaded: usize,
    pub edges_loaded: usize,
}

/// A document of the biomedical corpus with its metadata.
#[derive(Debug, Clone)]
pub struct BioCorpusDoc {
    pub source: String,
    pub text: String,
    pub domain: String,
    pub authors: Vec<String>,
    pub publication_date: Option<String>,
    pub citations: Vec<String>,
    pub keywords: Vec<String>,
}

impl BioGraphLoader {
    /// A loader that has loaded nothing.
    pub fn new() -> (r: Self)
        ensures
            r.nodes_loaded == 0,
            r.edges_loaded == 0,
    {
        BioGraphLoader { nodes_loaded: 0, edges_loaded: 0 }
    }

    /// Counts a batch of `count` loaded nodes.
    pub fn record_nodes(&mut self, count: usize)
        requires
            old(self).nodes_loaded + count <= usize::MAX,
        ensures
            final(self).nodes_loaded == old(self).nodes_loaded + count,
            final(self).edges_loaded == old(self).edges_loaded,
    {
        self.nodes_loaded = self.nodes_loaded + count;
    }

    /// Counts a batch of `count` loaded edges.
    pub fn record_edges(&mut self, count: usize)
        requires
            old(self).edges_loaded + count <= usize::MAX,
        ensures
            final(self).edges_loaded == old(self).edges_loaded + count,
            final(self).nodes_loaded == old(self).nodes_loaded,
    {
        self.edges_loaded = self.edges_loaded + count;
    }

    /// The counts so far.
    pub fn stats(&self) -> (r: LoaderStats)
        ensures
            r.nodes_loaded == self.nodes_loaded,
            r.edges_loaded == self.edges_loaded,
    {
        LoaderStats { nodes_loaded: self.nodes_loaded, edges_loaded: self.edges_loaded }
    }
}

impl Default for BioGraphLoader {
    fn default() -> (r: Self)
        ensures
            r.nodes_loaded == 0,
            r.edges_loaded == 0,
    {
        BioGraphLoader::new()
    }
}

} // verus!
