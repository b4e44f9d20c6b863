//! Server configuration: an explicit value handed to the pipeline's
//! construction, never ambient state.

use vstd::prelude::*;

use crate::text::{chars_to_string, dec_digits, push_all, str_to_chars, usize_to_chars};

verus! {

/// The listen address and the configured secret.
pub struct Config {
    pub host: String,
    pub port: u16,
    /// The bearer secret; a server without one refuses to optimize.
    pub api_key: Option<String>,
}

impl Config {
    /// The listen address as `host:port`.
    pub fn address(&self) -> (r: String)
        ensures
            r@ == self.host@ + seq![':'] + dec_digits(self.port as nat),
    {
        let mut v = str_to_chars(self.host.as_str());
        v.push(':');
        let p = usize_to_chars(self.port as usize);
        push_all(&mut v, &p);
        proof {
            assert(v@ =~= self.host@ + seq![':'] + dec_digits(self.port as nat));
        }
        chars_to_string(&v)
    }
}

} // verus!
