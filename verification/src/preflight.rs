//! Reading the outcome of the runtime check that Nix has flakes enabled
//! (`nix flake --help`).
use vstd::prelude::*;
use vstd::string::*;
use crate::text::{chars_of, contains, contains_str, push_all, string_from, trim, trim_chars};

verus! {

/// The advice shown when flakes are disabled.
pub open spec fn flakes_disabled_message() -> Seq<char> {
    "Nix flakes are not enabled on this system.\n\nTo enable them, add to /etc/nixos/configuration.nix:\n\n  nix.settings.experimental-features = [ \"nix-command\" \"flakes\" ];\n\nThen run: sudo nixos-rebuild switch\n\nOr for immediate (non-persistent) use:\n\n  echo 'experimental-features = nix-command flakes' | sudo tee -a /etc/nix/nix.conf\n  sudo systemctl restart nix-daemon"@
}

/// The result of the flakes check, from whether `nix flake --help` exited
/// successfully and what it printed on standard error: nothing on success;
/// the advice for enabling flakes when the error mentions `experimental`
/// or `disabled`; else `nix flake check failed: ` and the trimmed error.
pub fn flakes_check_outcome(success: bool, stderr: &str) -> (r: Result<(), String>)
    ensures
        success ==> r is Ok,
        !success && (contains(stderr@, "experimental"@) || contains(stderr@, "disabled"@))
            ==> (r matches Err(m) && m@ == flakes_disabled_message()),
        !success && !(contains(stderr@, "experimental"@) || contains(stderr@, "disabled"@))
            ==> (r matches Err(m) && m@ == "nix flake check failed: "@ + trim(stderr@)),
{
    if success {
        return Ok(());
    }
    let e = chars_of(stderr);
    if contains_str(&e, "experimental") || contains_str(&e, "disabled") {
        Err(String::from_str("Nix flakes are not enabled on this system.\n\nTo enable them, add to /etc/nixos/configuration.nix:\n\n  nix.settings.experimental-features = [ \"nix-command\" \"flakes\" ];\n\nThen run: sudo nixos-rebuild switch\n\nOr for immediate (non-persistent) use:\n\n  echo 'experimental-features = nix-command flakes' | sudo tee -a /etc/nix/nix.conf\n  sudo systemctl restart nix-daemon"))
    } else {
        let mut m = chars_of("nix flake check failed: ");
        push_all(&mut m, &trim_chars(&e));
        Err(string_from(&m))
    }
}

} // verus!
