//! The models and model settings of the machine-learning server.
use vstd::prelude::*;

use crate::text::{chars_of, decimal, string_from_chars, usize_to_string};

verus! {

/// A clustering method.
pub enum ClusterModel {
    HDBSCAN,
    DBSCAN,
    KMEANS,
}

/// The name by which the server knows a clustering method.
pub open spec fn cluster_model_name(m: ClusterModel) -> Seq<char> {
    match m {
        ClusterModel::HDBSCAN => "hdbscan"@,
        ClusterModel::DBSCAN => "dbscan"@,
        ClusterModel::KMEANS => "kmeans"@,
    }
}

impl ClusterModel {
    /// The name by which the server knows the method.
    pub fn parse(&self) -> (s: &str)
        ensures
            s@ == cluster_model_name(*self),
    {
        match self {
            ClusterModel::HDBSCAN => "hdbscan",
            ClusterModel::DBSCAN => "dbscan",
            ClusterModel::KMEANS => "kmeans",
        }
    }
}

impl Default for ClusterModel {
    fn default() -> (m: Self)
        ensures
            m == ClusterModel::HDBSCAN,
    {
        ClusterModel::HDBSCAN
    }
}

/// A method that reduces the dimensions of embeddings before clustering.
pub enum DimensionsReductionModel {
    LDA,
    LSA,
    UMAP,
    NONE,
}

/// The name by which the server knows a reduction method.
pub open spec fn reduction_model_name(m: DimensionsReductionModel) -> Seq<char> {
    match m {
        DimensionsReductionModel::LDA => "lda"@,
        DimensionsReductionModel::LSA => "lsa"@,
        DimensionsReductionModel::UMAP => "umap"@,
        DimensionsReductionModel::NONE => "none"@,
    }
}

impl DimensionsReductionModel {
    /// The name by which the server knows the method.
    pub fn parse(&self) -> (s: &str)
        ensures
            s@ == reduction_model_name(*self),
    {
        match self {
            DimensionsReductionModel::LDA => "lda",
            DimensionsReductionModel::LSA => "lsa",
            DimensionsReductionModel::UMAP => "umap",
            DimensionsReductionModel::NONE => "none",
        }
    }
}

impl Default for DimensionsReductionModel {
    fn default() -> (m: Self)
        ensures
            m == DimensionsReductionModel::UMAP,
    {
        DimensionsReductionModel::UMAP
    }
}

/// Settings of the LDA reduction.
pub struct LdaConfig {
    pub n_components: usize,
    pub max_iter: usize,
    pub learning_method: String,
}

/// Settings of the LSA reduction.
pub struct LsaConfig {
    pub n_components: usize,
}

/// Settings of the HDBSCAN clustering.
pub struct HdbscanConfig {
    pub min_samples: Option<usize>,
    pub metric: String,
}

/// Settings of the k-means clustering.
pub struct KmeansConfig {
    pub k_clusters: usize,
    pub init_position: String,
    pub metric: String,
}

impl Default for LsaConfig {
    fn default() -> (c: Self)
        ensures
            c.n_components == 15,
    {
        LsaConfig { n_components: 15 }
    }
}

impl Default for LdaConfig {
    fn default() -> (c: Self)
        ensures
            c.n_components == 15,
            c.max_iter == 100,
            c.learning_method@ == "online"@,
    {
        LdaConfig { n_components: 15, max_iter: 100, learning_method: string_from_chars(&chars_of("online")) }
    }
}

impl Default for HdbscanConfig {
    fn default() -> (c: Self)
        ensures
            c.min_samples == Some(10usize),
            c.metric@ == "euclidean"@,
    {
        HdbscanConfig { min_samples: Some(10), metric: string_from_chars(&chars_of("euclidean")) }
    }
}

impl Default for KmeansConfig {
    fn default() -> (c: Self)
        ensures
            c.k_clusters == 3,
            c.metric@ == "cosine"@,
            c.init_position@ == "kmeans++"@,
    {
        KmeansConfig {
            k_clusters: 3,
            metric: string_from_chars(&chars_of("cosine")),
            init_position: string_from_chars(&chars_of("kmeans++")),
        }
    }
}

/// The address of the server at `host` and `port`: `http://host:port`.
pub fn ml_address(host: &str, port: u16) -> (s: String)
    ensures
        s@ == "http://"@ + host@ + ":"@ + decimal(port as nat),
{
    let mut s = string_from_chars(&chars_of("http://"));
    s.push_str(host);
    s.push_str(":");
    s.push_str(usize_to_string(port as usize).as_str());
    s
}

} // verus!
