//! What the configuration says of the clusters.
use vstd::prelude::*;

verus! {

/// One entry of the configuration's list of kubeconfigs: the path of a file,
/// or the kubeconfig itself as text. An entry should name one of the two.
#[derive(PartialEq, Eq, Debug)]
pub struct KubeConfig {
    pub config_path: Option<String>,
    pub raw: Option<String>,
}

} // verus!
