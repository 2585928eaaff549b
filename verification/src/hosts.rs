//! The entry points: each takes the current document and returns the
//! document to persist, or the failure that stops the operation before any
//! write.
use vstd::prelude::*;
use vstd::string::*;
use crate::error::HostsError;
use crate::policy::{
    gatekeep_content, gatekeep_text, ping_host_of, redirect_content, redirect_targets,
    redirect_text, service_host_of, targets_defined,
};
use crate::catalog::{Catalog, Selection};
use crate::region::{region_index, BlockMode};
use crate::section::{replace_section, replaced};

verus! {

/// The canonical document of a reset: loopback entries only.
pub open spec fn default_table() -> Seq<char> {
    "# Static table lookup for hostnames.\n# See hosts(5) for details.\n127.0.0.1        localhost\n::1              localhost\n"@
}

/// Computes the documents that the operations on the hosts table write.
pub struct HostsManager {
    discord_url: String,
}

impl View for HostsManager {
    type V = Seq<char>;

    /// The support contact that the section's comment lines name.
    closed spec fn view(&self) -> Seq<char> {
        self.discord_url@
    }
}

impl HostsManager {
    /// A manager whose sections name `discord_url` as the support contact.
    pub fn new(discord_url: String) -> (manager: Self)
        ensures
            manager@ == discord_url@,
    {
        HostsManager { discord_url }
    }

    /// `current` with its owned section replaced by the block for
    /// `inner_content`.
    pub fn write_wrapped_section(&self, current: &str, inner_content: &str) -> (document: String)
        ensures
            document@ == replaced(current@, inner_content@),
    {
        replace_section(current, inner_content)
    }

    /// Gatekeep: blocks the endpoints of every region outside the effective
    /// allow-set of `selected`. An empty selection is refused.
    pub fn apply_gatekeep(
        &self,
        current: &str,
        regions: &Catalog,
        selected: &Selection,
        block_mode: BlockMode,
        merge_unstable: bool,
    ) -> (result: Result<String, HostsError>)
        ensures
            selected@.len() == 0 ==> result == Err::<String, HostsError>(
                HostsError::EmptySelection,
            ),
            selected@.len() > 0 ==> (result matches Ok(document) && document@ == replaced(
                current@,
                gatekeep_text(
                    self@,
                    regions@,
                    selected@,
                    block_mode,
                    merge_unstable,
                ),
            )),
    {
        if selected.len() == 0 {
            return Err(HostsError::EmptySelection);
        }
        let content: String = gatekeep_content(
            self.discord_url.as_str(),
            regions.regions(),
            selected.ids(),
            block_mode,
            merge_unstable,
        );
        Ok(replace_section(current, content.as_str()))
    }

    /// Universal redirect: maps every endpoint of the catalog to the two
    /// addresses of the one selected region. `service_ip` and `ping_ip` are
    /// the outcomes of resolving the region's two target hostnames, `None`
    /// where the lookup failed or gave no address. The selection is checked
    /// first, then the service address, then the ping address.
    pub fn apply_universal_redirect(
        &self,
        current: &str,
        regions: &Catalog,
        selected: &Selection,
        service_ip: Option<&str>,
        ping_ip: Option<&str>,
    ) -> (result: Result<String, HostsError>)
        requires
            targets_defined(regions@, selected@),
        ensures
            selected@.len() != 1 ==> result == Err::<String, HostsError>(
                HostsError::InvalidSelection,
            ),
            selected@.len() == 1 ==> match region_index(regions@, selected@[0]) {
                None => result == Err::<String, HostsError>(HostsError::RegionNotFound),
                Some(i) => match (service_ip, ping_ip) {
                    (None, _) => result matches Err(HostsError::ResolutionFailure { hostname })
                        && hostname@ == service_host_of(regions@[i]),
                    (Some(_), None) => result matches Err(
                        HostsError::ResolutionFailure { hostname },
                    ) && hostname@ == ping_host_of(regions@[i]),
                    (Some(s), Some(p)) => result matches Ok(document) && document@ == replaced(
                        current@,
                        redirect_text(self@, regions@, s@, p@),
                    ),
                },
            },
    {
        let ids: &Vec<String> = selected.ids();
        proof {
            if ids@.len() == 1 {
                assert(selected@[0] == ids@[0]@);
            }
        }
        match redirect_targets(regions.regions(), ids) {
            Err(e) => Err(e),
            Ok(targets) => match service_ip {
                None => Err(HostsError::ResolutionFailure { hostname: targets.service_host }),
                Some(s) => match ping_ip {
                    None => Err(HostsError::ResolutionFailure { hostname: targets.ping_host }),
                    Some(p) => {
                        let content: String = redirect_content(
                            self.discord_url.as_str(),
                            regions.regions(),
                            s,
                            p,
                        );
                        Ok(replace_section(current, content.as_str()))
                    },
                },
            },
        }
    }

    /// Revert: `current` without its owned section.
    pub fn revert(&self, current: &str) -> (document: String)
        ensures
            document@ == replaced(current@, Seq::empty()),
    {
        proof {
            reveal_strlit("");
            assert(""@ =~= Seq::<char>::empty());
        }
        replace_section(current, "")
    }

    /// Reset: the canonical document, which replaces the whole table.
    pub fn restore_default(&self) -> (document: String)
        ensures
            document@ == default_table(),
    {
        String::from_str(
            "# Static table lookup for hostnames.\n# See hosts(5) for details.\n127.0.0.1        localhost\n::1              localhost\n",
        )
    }
}

} // verus!
