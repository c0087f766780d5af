//! Which context, cluster and user a kubeconfig selects.
use vstd::prelude::*;

verus! {

/// A context of a kubeconfig: the names of its cluster and of its user.
#[derive(PartialEq, Eq, Debug)]
pub struct Context {
    pub cluster: String,
    pub user: String,
}

/// A context of a kubeconfig under its name.
#[derive(PartialEq, Eq, Debug)]
pub struct NamedContext {
    pub name: String,
    pub context: Option<Context>,
}

/// What the library reads of a kubeconfig: its contexts, and the name of the
/// one that is in use.
#[derive(PartialEq, Eq, Debug)]
pub struct Kubeconfig {
    pub contexts: Vec<NamedContext>,
    pub current_context: Option<String>,
}

/// The context, cluster and user that a client is built for.
#[derive(PartialEq, Eq, Debug)]
pub struct KubeConfigOptions {
    pub context: Option<String>,
    pub cluster: Option<String>,
    pub user: Option<String>,
}

/// The first place at or after `i` at which a context is called `name`.
pub open spec fn context_at(contexts: Seq<NamedContext>, name: Seq<char>, i: int) -> Option<int>
    decreases contexts.len() - i,
{
    if i < 0 || i >= contexts.len() {
        None
    } else if contexts[i].name@ == name {
        Some(i)
    } else {
        context_at(contexts, name, i + 1)
    }
}

/// Whether the kubeconfig says which of its contexts is in use, and that
/// context, where it is among them, names a cluster and a user.
pub open spec fn selects(kubeconfig: Kubeconfig) -> bool {
    kubeconfig.contexts@.len() > 0 ==> kubeconfig.current_context is Some && (context_at(
        kubeconfig.contexts@,
        kubeconfig.current_context->0@,
        0,
    ) matches Some(i) ==> kubeconfig.contexts@[i].context is Some)
}

/// The name of the cluster of the context in use, if that context is among
/// the contexts.
pub open spec fn selected_cluster(kubeconfig: Kubeconfig) -> Option<Seq<char>> {
    if kubeconfig.contexts@.len() == 0 {
        None
    } else {
        match context_at(kubeconfig.contexts@, kubeconfig.current_context->0@, 0) {
            Some(i) => Some(kubeconfig.contexts@[i].context->0.cluster@),
            None => None,
        }
    }
}

/// The view of an optional string.
pub open spec fn opt_text(s: Option<String>) -> Option<Seq<char>> {
    match s {
        Some(text) => Some(text@),
        None => None,
    }
}

/// Whether the kubeconfig says which of its contexts is in use, and that
/// context, where it is among them, names a cluster and a user.
pub fn can_select(kubeconfig: &Kubeconfig) -> (ok: bool)
    ensures
        ok == selects(*kubeconfig),
{
    if kubeconfig.contexts.len() == 0 {
        return true;
    }
    match &kubeconfig.current_context {
        None => false,
        Some(name) => {
            let mut i: usize = 0;
            while i < kubeconfig.contexts.len()
                invariant
                    i <= kubeconfig.contexts@.len(),
                    kubeconfig.current_context == Some(*name),
                    context_at(kubeconfig.contexts@, name@, 0) == context_at(
                        kubeconfig.contexts@,
                        name@,
                        i as int,
                    ),
                decreases kubeconfig.contexts@.len() - i,
            {
                if kubeconfig.contexts[i].name == *name {
                    return kubeconfig.contexts[i].context.is_some();
                }
                i += 1;
            }
            true
        },
    }
}

/// The options that select what the kubeconfig has in use: its current
/// context, and the cluster of that context. The user is named like the
/// cluster.
pub fn get_current_kubeconfig_options(kubeconfig: &Kubeconfig) -> (options: KubeConfigOptions)
    requires
        selects(*kubeconfig),
    ensures
        opt_text(options.context) == opt_text(kubeconfig.current_context),
        opt_text(options.cluster) == selected_cluster(*kubeconfig),
        opt_text(options.user) == selected_cluster(*kubeconfig),
{
    let context = match &kubeconfig.current_context {
        Some(name) => Some(name.clone()),
        None => None,
    };
    let mut cluster: Option<String> = None;
    let mut user: Option<String> = None;
    if let Some(name) = &kubeconfig.current_context {
        let mut i: usize = 0;
        while i < kubeconfig.contexts.len()
            invariant
                i <= kubeconfig.contexts@.len(),
                selects(*kubeconfig),
                kubeconfig.current_context == Some(*name),
                opt_text(context) == opt_text(kubeconfig.current_context),
                cluster is None,
                user is None,
                context_at(kubeconfig.contexts@, name@, 0) == context_at(
                    kubeconfig.contexts@,
                    name@,
                    i as int,
                ),
            decreases kubeconfig.contexts@.len() - i,
        {
            if kubeconfig.contexts[i].name == *name {
                match &kubeconfig.contexts[i].context {
                    Some(found) => {
                        cluster = Some(found.cluster.clone());
                        user = Some(found.cluster.clone());
                    },
                    None => {},
                }
                return KubeConfigOptions { context, cluster, user };
            }
            i += 1;
        }
    }
    KubeConfigOptions { context, cluster, user }
}

} // verus!
