//! Immutable configuration values, constructed once at startup from
//! whatever secret store the host process uses and passed explicitly into
//! the components that need them.

use vstd::prelude::*;
use vstd::string::StringExecFns;

verus! {

/// Configuration of the chat server process.
pub struct ServerKeys {
    pub which_node_env: String,
    pub allowed_origin: String,
}

/// Configuration of the companion bot process.
pub struct BotKeys {
    pub telegram_bot_token: String,
    pub app_host: String,
}

impl ServerKeys {
    pub fn new(which_node_env: String, allowed_origin: String) -> (r: ServerKeys)
        ensures
            r.which_node_env@ == which_node_env@,
            r.allowed_origin@ == allowed_origin@,
    {
        ServerKeys { which_node_env, allowed_origin }
    }

    /// The origin browsers may reach the server from: the configured origin
    /// under https in production, the local development server otherwise.
    pub fn cors_allowed_origin(&self) -> (r: String)
        ensures
            self.which_node_env@ == "production"@ ==> r@ == "https://"@ + self.allowed_origin@
                + "/"@,
            self.which_node_env@ != "production"@ ==> r@ == "http://localhost:3000"@,
    {
        if crate::text::str_eq(self.which_node_env.as_str(), "production") {
            String::from_str("https://").concat(self.allowed_origin.as_str()).concat("/")
        } else {
            String::from_str("http://localhost:3000")
        }
    }
}

impl BotKeys {
    pub fn new(telegram_bot_token: String, app_host: String) -> (r: BotKeys)
        ensures
            r.telegram_bot_token@ == telegram_bot_token@,
            r.app_host@ == app_host@,
    {
        BotKeys { telegram_bot_token, app_host }
    }

    /// The address Telegram should deliver webhook updates to.
    pub fn webhook_url(&self) -> (r: String)
        ensures
            r@ == "https://"@ + self.app_host@ + "/webhook"@,
    {
        String::from_str("https://").concat(self.app_host.as_str()).concat("/webhook")
    }
}

pub fn get_which_node_env_url(keys: &ServerKeys) -> (r: &str)
    ensures
        r@ == keys.which_node_env@,
{
    keys.which_node_env.as_str()
}

pub fn get_allowed_origin(keys: &ServerKeys) -> (r: &str)
    ensures
        r@ == keys.allowed_origin@,
{
    keys.allowed_origin.as_str()
}

pub fn get_telegram_bot_token(keys: &BotKeys) -> (r: &str)
    ensures
        r@ == keys.telegram_bot_token@,
{
    keys.telegram_bot_token.as_str()
}

pub fn get_app_host(keys: &BotKeys) -> (r: &str)
    ensures
        r@ == keys.app_host@,
{
    keys.app_host.as_str()
}

} // verus!
