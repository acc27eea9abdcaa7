//! The connections to model runtimes and the models configured on them.
//!
//! At most one connection is active, and the active model always belongs to
//! it: activating a connection, activating a model and clearing the choice are
//! single operations over the whole registry, so no state in between is ever
//! visible.

use vstd::prelude::*;
use crate::providers::ConfigApplied;
use crate::stamp::new_id;
use crate::text::{owned, str_eq};

verus! {

/// Whether a runtime answered its last health check.
#[derive(Debug, Clone, Copy, PartialEq, Eq, Structural)]
pub enum ConnectionStatus {
    Available,
    Unavailable,
    Unknown,
}

/// A runtime the app talks to.
#[derive(Debug)]
pub struct Connection {
    pub id: String,
    pub provider: String,
    pub base_url: String,
    pub is_active: bool,
    pub status: ConnectionStatus,
}

/// A known runtime the app can offer to add: not yet stored.
#[derive(Debug)]
pub struct ConnectionCandidate {
    pub provider: String,
    pub base_url: String,
}

/// The per-model settings stored for a connection.
#[derive(Debug)]
pub struct ModelConfig {
    pub id: String,
    pub connection_id: String,
    pub model_name: String,
    pub context_length: Option<u32>,
    pub gpu_offload: Option<String>,
    pub is_active: bool,
}

pub struct ConnView {
    pub id: Seq<char>,
    pub provider: Seq<char>,
    pub base_url: Seq<char>,
    pub is_active: bool,
    pub status: ConnectionStatus,
}

pub struct ModelConfigView {
    pub id: Seq<char>,
    pub connection_id: Seq<char>,
    pub model_name: Seq<char>,
    pub context_length: Option<u32>,
    pub gpu_offload: Option<Seq<char>>,
    pub is_active: bool,
}

pub open spec fn text_view(o: Option<String>) -> Option<Seq<char>> {
    match o {
        Some(s) => Some(s@),
        None => None,
    }
}

impl View for Connection {
    type V = ConnView;

    open spec fn view(&self) -> ConnView {
        ConnView {
            id: self.id@,
            provider: self.provider@,
            base_url: self.base_url@,
            is_active: self.is_active,
            status: self.status,
        }
    }
}

impl View for ModelConfig {
    type V = ModelConfigView;

    open spec fn view(&self) -> ModelConfigView {
        ModelConfigView {
            id: self.id@,
            connection_id: self.connection_id@,
            model_name: self.model_name@,
            context_length: self.context_length,
            gpu_offload: text_view(self.gpu_offload),
            is_active: self.is_active,
        }
    }
}

pub open spec fn conns_view(cs: Seq<Connection>) -> Seq<ConnView> {
    cs.map_values(|c: Connection| c@)
}

pub open spec fn configs_view(ms: Seq<ModelConfig>) -> Seq<ModelConfigView> {
    ms.map_values(|m: ModelConfig| m@)
}

pub open spec fn conn_with_active(c: ConnView, active: bool) -> ConnView {
    ConnView { id: c.id, provider: c.provider, base_url: c.base_url, is_active: active, status: c.status }
}

pub open spec fn config_with_active(m: ModelConfigView, active: bool) -> ModelConfigView {
    ModelConfigView {
        id: m.id,
        connection_id: m.connection_id,
        model_name: m.model_name,
        context_length: m.context_length,
        gpu_offload: m.gpu_offload,
        is_active: active,
    }
}

/// A configuration with the settings a runtime accepted.
pub open spec fn with_settings(m: ModelConfigView, context_length: Option<u32>, gpu_offload: Option<Seq<char>>) -> ModelConfigView {
    ModelConfigView {
        id: m.id,
        connection_id: m.connection_id,
        model_name: m.model_name,
        context_length,
        gpu_offload,
        is_active: m.is_active,
    }
}

pub open spec fn has_connection(cs: Seq<ConnView>, id: Seq<char>) -> bool {
    exists|i: int| 0 <= i < cs.len() && (#[trigger] cs[i]).id == id
}

/// Some stored connection has an identifier of the length a fresh one has:
/// only then can a freshly drawn identifier collide.
pub open spec fn holds_drawable_connection_id(cs: Seq<ConnView>) -> bool {
    exists|id: Seq<char>| id.len() == 36 && has_connection(cs, id)
}

/// Some stored configuration has an identifier of the length a fresh one
/// has: only then can a freshly drawn identifier collide.
pub open spec fn holds_drawable_config_id(ms: Seq<ModelConfigView>) -> bool {
    exists|id: Seq<char>| id.len() == 36 && has_config_id(ms, id)
}

pub open spec fn has_config_id(ms: Seq<ModelConfigView>, id: Seq<char>) -> bool {
    exists|i: int| 0 <= i < ms.len() && (#[trigger] ms[i]).id == id
}

/// Every connection active exactly when it is `id`.
pub open spec fn activated(cs: Seq<ConnView>, id: Seq<char>) -> Seq<ConnView> {
    cs.map_values(|c: ConnView| conn_with_active(c, c.id == id))
}

/// The models that stay active when `id` becomes the active connection: only
/// those that belong to it.
pub open spec fn kept_for(ms: Seq<ModelConfigView>, id: Seq<char>) -> Seq<ModelConfigView> {
    ms.map_values(|m: ModelConfigView| config_with_active(m, m.is_active && m.connection_id == id))
}

pub open spec fn all_inactive(cs: Seq<ConnView>) -> Seq<ConnView> {
    cs.map_values(|c: ConnView| conn_with_active(c, false))
}

pub open spec fn configs_inactive(ms: Seq<ModelConfigView>) -> Seq<ModelConfigView> {
    ms.map_values(|m: ModelConfigView| config_with_active(m, false))
}

/// Only the configuration with `id` active.
pub open spec fn only_config(ms: Seq<ModelConfigView>, id: Seq<char>) -> Seq<ModelConfigView> {
    ms.map_values(|m: ModelConfigView| config_with_active(m, m.id == id))
}

/// The position of the first active connection: what a lookup of "the"
/// active row returns.
pub open spec fn first_active(cs: Seq<ConnView>) -> Option<int>
    decreases cs.len(),
{
    if cs.len() == 0 {
        None
    } else if cs[0].is_active {
        Some(0)
    } else {
        match first_active(cs.drop_first()) {
            Some(i) => Some(i + 1),
            None => None,
        }
    }
}

pub open spec fn first_active_config(ms: Seq<ModelConfigView>) -> Option<int>
    decreases ms.len(),
{
    if ms.len() == 0 {
        None
    } else if ms[0].is_active {
        Some(0)
    } else {
        match first_active_config(ms.drop_first()) {
            Some(i) => Some(i + 1),
            None => None,
        }
    }
}

/// The position of the configuration of `model_name` on `connection_id`.
pub open spec fn config_for(ms: Seq<ModelConfigView>, connection_id: Seq<char>, model_name: Seq<char>) -> Option<int>
    decreases ms.len(),
{
    if ms.len() == 0 {
        None
    } else if ms[0].connection_id == connection_id && ms[0].model_name == model_name {
        Some(0)
    } else {
        match config_for(ms.drop_first(), connection_id, model_name) {
            Some(i) => Some(i + 1),
            None => None,
        }
    }
}

/// The registry's invariant: identifiers are unique, a model is configured
/// once per connection, at most one connection and one model are active, and
/// the active model belongs to an active connection.
pub open spec fn well_formed(cs: Seq<ConnView>, ms: Seq<ModelConfigView>) -> bool {
    &&& forall|i: int, j: int| 0 <= i < cs.len() && 0 <= j < cs.len() && i != j ==> #[trigger] cs[i].id != #[trigger] cs[j].id
    &&& forall|i: int, j: int| 0 <= i < ms.len() && 0 <= j < ms.len() && i != j ==> #[trigger] ms[i].id != #[trigger] ms[j].id
    &&& forall|i: int, j: int| 0 <= i < ms.len() && 0 <= j < ms.len() && i != j
        ==> !(#[trigger] ms[i].connection_id == #[trigger] ms[j].connection_id && ms[i].model_name == ms[j].model_name)
    &&& forall|i: int, j: int| 0 <= i < cs.len() && 0 <= j < cs.len() && #[trigger] cs[i].is_active && #[trigger] cs[j].is_active ==> i == j
    &&& forall|i: int, j: int| 0 <= i < ms.len() && 0 <= j < ms.len() && #[trigger] ms[i].is_active && #[trigger] ms[j].is_active ==> i == j
    &&& forall|i: int| 0 <= i < ms.len() && (#[trigger] ms[i]).is_active ==> exists|j: int|
        0 <= j < cs.len() && (#[trigger] cs[j]).is_active && cs[j].id == ms[i].connection_id
}

proof fn lemma_first_active(cs: Seq<ConnView>)
    ensures
        first_active(cs) matches Some(i) ==> 0 <= i < cs.len() && cs[i].is_active
            && forall|j: int| 0 <= j < i ==> !(#[trigger] cs[j]).is_active,
        first_active(cs) is None ==> forall|j: int| 0 <= j < cs.len() ==> !(#[trigger] cs[j]).is_active,
    decreases cs.len(),
{
    if cs.len() > 0 {
        lemma_first_active(cs.drop_first());
        assert forall|j: int| 1 <= j < cs.len() implies #[trigger] cs[j] == cs.drop_first()[j - 1] by {}
    }
}

proof fn lemma_first_active_config(ms: Seq<ModelConfigView>)
    ensures
        first_active_config(ms) matches Some(i) ==> 0 <= i < ms.len() && ms[i].is_active
            && forall|j: int| 0 <= j < i ==> !(#[trigger] ms[j]).is_active,
        first_active_config(ms) is None ==> forall|j: int| 0 <= j < ms.len() ==> !(#[trigger] ms[j]).is_active,
    decreases ms.len(),
{
    if ms.len() > 0 {
        lemma_first_active_config(ms.drop_first());
        assert forall|j: int| 1 <= j < ms.len() implies #[trigger] ms[j] == ms.drop_first()[j - 1] by {}
    }
}

proof fn lemma_config_for(ms: Seq<ModelConfigView>, connection_id: Seq<char>, model_name: Seq<char>)
    ensures
        config_for(ms, connection_id, model_name) matches Some(i) ==> 0 <= i < ms.len()
            && ms[i].connection_id == connection_id && ms[i].model_name == model_name
            && forall|j: int| 0 <= j < i ==> !((#[trigger] ms[j]).connection_id == connection_id && ms[j].model_name == model_name),
        config_for(ms, connection_id, model_name) is None ==> forall|j: int| 0 <= j < ms.len()
            ==> !((#[trigger] ms[j]).connection_id == connection_id && ms[j].model_name == model_name),
    decreases ms.len(),
{
    if ms.len() > 0 {
        lemma_config_for(ms.drop_first(), connection_id, model_name);
        assert forall|j: int| 1 <= j < ms.len() implies #[trigger] ms[j] == ms.drop_first()[j - 1] by {}
    }
}

fn copy_text(o: &Option<String>) -> (r: Option<String>)
    ensures
        text_view(r) == text_view(*o),
{
    match o {
        Some(s) => Some(s.clone()),
        None => None,
    }
}

impl Connection {
    /// An identical, separately owned connection.
    pub fn duplicate(&self) -> (c: Connection)
        ensures
            c@ == self@,
    {
        Connection {
            id: self.id.clone(),
            provider: self.provider.clone(),
            base_url: self.base_url.clone(),
            is_active: self.is_active,
            status: self.status,
        }
    }
}

impl ModelConfig {
    fn duplicate_with(&self, is_active: bool) -> (m: ModelConfig)
        ensures
            m@ == config_with_active(self@, is_active),
    {
        ModelConfig {
            id: self.id.clone(),
            connection_id: self.connection_id.clone(),
            model_name: self.model_name.clone(),
            context_length: self.context_length,
            gpu_offload: copy_text(&self.gpu_offload),
            is_active,
        }
    }
}

/// The model chosen for the chat.
#[derive(Debug)]
pub struct ActiveModel {
    pub connection_id: String,
    pub model_name: String,
    pub context_length: Option<u32>,
    pub gpu_offload: Option<String>,
}

/// Who answers now: the active connection and, once one was picked, its
/// active model.
#[derive(Debug)]
pub struct ActivePair {
    pub connection: Option<Connection>,
    pub model: Option<ActiveModel>,
}

/// The connection and model a chat message goes to.
#[derive(Debug)]
pub struct ActiveTarget {
    pub connection: Connection,
    pub model_name: String,
    pub context_length: Option<u32>,
    pub gpu_offload: Option<String>,
}

pub const NOT_FOUND: &'static str = "Conexão não encontrada";

pub const NO_ACTIVE_CONNECTION: &'static str = "Nenhuma conexão ativa — escolha uma em Conexões";

pub const NO_ACTIVE_MODEL: &'static str = "Nenhum modelo ativo — escolha um em Conexões";

pub const DUPLICATE_CONNECTION_ID: &'static str = "UNIQUE constraint failed: connections.id";

pub const DUPLICATE_CONFIG_ID: &'static str = "UNIQUE constraint failed: model_configs.id";

pub open spec fn active_model_of(m: ModelConfigView) -> (Seq<char>, Seq<char>, Option<u32>, Option<Seq<char>>) {
    (m.connection_id, m.model_name, m.context_length, m.gpu_offload)
}

pub open spec fn new_connection(id: Seq<char>, provider: Seq<char>, base_url: Seq<char>) -> ConnView {
    ConnView { id, provider, base_url, is_active: false, status: ConnectionStatus::Unknown }
}

pub open spec fn new_config(id: Seq<char>, connection_id: Seq<char>, model_name: Seq<char>) -> ModelConfigView {
    ModelConfigView { id, connection_id, model_name, context_length: None, gpu_offload: None, is_active: false }
}

/// The stored connections and model configurations, in creation order.
#[derive(Debug)]
pub struct Registry {
    pub connections: Vec<Connection>,
    pub model_configs: Vec<ModelConfig>,
}

impl Registry {
    pub open spec fn conns(&self) -> Seq<ConnView> {
        conns_view(self.connections@)
    }

    pub open spec fn configs(&self) -> Seq<ModelConfigView> {
        configs_view(self.model_configs@)
    }

    pub fn new() -> (r: Registry)
        ensures
            r.conns().len() == 0,
            r.configs().len() == 0,
    {
        Registry { connections: Vec::new(), model_configs: Vec::new() }
    }

    fn position_of(&self, id: &str) -> (i: Option<usize>)
        ensures
            match i {
                Some(k) => k < self.conns().len() && self.conns()[k as int].id == id@,
                None => !has_connection(self.conns(), id@),
            },
    {
        let mut i: usize = 0;
        while i < self.connections.len()
            invariant
                i <= self.connections@.len(),
                forall|j: int| 0 <= j < i ==> (#[trigger] self.conns()[j]).id != id@,
            decreases self.connections@.len() - i,
        {
            if str_eq(self.connections[i].id.as_str(), id) {
                return Some(i);
            }
            i = i + 1;
        }
        None
    }

    fn config_position(&self, id: &str) -> (i: Option<usize>)
        ensures
            match i {
                Some(k) => k < self.configs().len() && self.configs()[k as int].id == id@,
                None => !has_config_id(self.configs(), id@),
            },
    {
        let mut i: usize = 0;
        while i < self.model_configs.len()
            invariant
                i <= self.model_configs@.len(),
                forall|j: int| 0 <= j < i ==> (#[trigger] self.configs()[j]).id != id@,
            decreases self.model_configs@.len() - i,
        {
            if str_eq(self.model_configs[i].id.as_str(), id) {
                return Some(i);
            }
            i = i + 1;
        }
        None
    }

    /// Stores a new, inactive connection under `id`. An `id` already in use
    /// is refused, as the table's primary key refuses it.
    pub fn insert_connection(&mut self, id: String, provider: String, base_url: String) -> (r: Result<Connection, String>)
        ensures
            match r {
                Ok(c) => {
                    &&& !has_connection(old(self).conns(), id@)
                    &&& c@ == new_connection(id@, provider@, base_url@)
                    &&& final(self).conns() == old(self).conns().push(c@)
                    &&& final(self).configs() == old(self).configs()
                },
                Err(e) => {
                    &&& has_connection(old(self).conns(), id@)
                    &&& e@ == DUPLICATE_CONNECTION_ID@
                    &&& final(self).conns() == old(self).conns()
                    &&& final(self).configs() == old(self).configs()
                },
            },
    {
        if self.position_of(id.as_str()).is_some() {
            return Err(owned(DUPLICATE_CONNECTION_ID));
        }
        let c = Connection { id, provider, base_url, is_active: false, status: ConnectionStatus::Unknown };
        let stored = c.duplicate();
        self.connections.push(stored);
        assert(self.conns() =~= old(self).conns().push(c@));
        Ok(c)
    }

    /// Stores a new, inactive connection under a fresh identifier.
    /// Connections are always created inactive: activation is exclusive and
    /// belongs to `apply_active_connection`.
    pub fn create_connection(&mut self, provider: String, base_url: String) -> (r: Result<Connection, String>)
        ensures
            match r {
                Ok(c) => {
                    &&& c@ == new_connection(c@.id, provider@, base_url@)
                    &&& !has_connection(old(self).conns(), c@.id)
                    &&& final(self).conns() == old(self).conns().push(c@)
                    &&& final(self).configs() == old(self).configs()
                },
                Err(e) => {
                    &&& e@ == DUPLICATE_CONNECTION_ID@
                    &&& holds_drawable_connection_id(old(self).conns())
                    &&& old(self).conns().len() > 0
                    &&& final(self).conns() == old(self).conns()
                    &&& final(self).configs() == old(self).configs()
                },
            },
            !holds_drawable_connection_id(old(self).conns()) ==> r is Ok,
    {
        let id = new_id();
        let ghost drawn = id@;
        let r = self.insert_connection(id, provider, base_url);
        proof {
            if r is Err {
                assert(drawn.len() == 36 && has_connection(old(self).conns(), drawn));
                let i = choose|i: int| 0 <= i < old(self).conns().len() && (#[trigger] old(self).conns()[i]).id == drawn;
            }
        }
        r
    }

    /// Every connection, in creation order.
    pub fn list_connections(&self) -> (r: Vec<Connection>)
        ensures
            conns_view(r@) == self.conns(),
    {
        let mut r: Vec<Connection> = Vec::new();
        let mut i: usize = 0;
        while i < self.connections.len()
            invariant
                i <= self.connections@.len(),
                r@.len() == i,
                forall|j: int| 0 <= j < i ==> (#[trigger] r@[j])@ == self.conns()[j],
            decreases self.connections@.len() - i,
        {
            r.push(self.connections[i].duplicate());
            i = i + 1;
        }
        assert(conns_view(r@) =~= self.conns());
        r
    }

    /// The connection stored under `id`.
    pub fn find_connection(&self, id: &str) -> (r: Result<Connection, String>)
        ensures
            match r {
                Ok(c) => has_connection(self.conns(), id@) && c@.id == id@
                    && exists|k: int| 0 <= k < self.conns().len() && self.conns()[k] == c@,
                Err(e) => !has_connection(self.conns(), id@) && e@ == NOT_FOUND@,
            },
    {
        match self.position_of(id) {
            Some(k) => Ok(self.connections[k].duplicate()),
            None => Err(owned(NOT_FOUND)),
        }
    }

    /// The active connection, if any.
    pub fn active_connection(&self) -> (r: Option<Connection>)
        ensures
            match first_active(self.conns()) {
                Some(k) => r matches Some(c) && c@ == self.conns()[k],
                None => r is None,
            },
    {
        proof {
            lemma_first_active(self.conns());
        }
        let mut i: usize = 0;
        while i < self.connections.len()
            invariant
                i <= self.connections@.len(),
                forall|j: int| 0 <= j < i ==> !(#[trigger] self.conns()[j]).is_active,
                first_active(self.conns()) matches Some(k) ==> 0 <= k < self.conns().len() && self.conns()[k].is_active
                    && forall|j: int| 0 <= j < k ==> !(#[trigger] self.conns()[j]).is_active,
                first_active(self.conns()) is None ==> forall|j: int| 0 <= j < self.conns().len() ==> !(#[trigger] self.conns()[j]).is_active,
            decreases self.connections@.len() - i,
        {
            if self.connections[i].is_active {
                proof {
                    assert(self.conns()[i as int] == self.connections@[i as int]@);
                    if let Some(k) = first_active(self.conns()) {
                        if k < i {
                            assert(!self.conns()[k].is_active);
                        } else if k > i {
                            assert(!self.conns()[i as int].is_active);
                        }
                    }
                }
                return Some(self.connections[i].duplicate());
            }
            i = i + 1;
        }
        None
    }

    fn set_connection_flags(&mut self, id: Option<&str>)
        ensures
            final(self).conns() == match id {
                Some(x) => activated(old(self).conns(), x@),
                None => all_inactive(old(self).conns()),
            },
            final(self).configs() == old(self).configs(),
    {
        let mut next: Vec<Connection> = Vec::new();
        let mut i: usize = 0;
        while i < self.connections.len()
            invariant
                i <= self.connections@.len(),
                self == old(self),
                next@.len() == i,
                forall|j: int| 0 <= j < i ==> (#[trigger] next@[j])@ == conn_with_active(
                    self.conns()[j],
                    match id {
                        Some(x) => self.conns()[j].id == x@,
                        None => false,
                    },
                ),
            decreases self.connections@.len() - i,
        {
            let mut c = self.connections[i].duplicate();
            c.is_active = match id {
                Some(x) => str_eq(c.id.as_str(), x),
                None => false,
            };
            next.push(c);
            i = i + 1;
        }
        self.connections = next;
        proof {
            match id {
                Some(x) => assert(self.conns() =~= activated(old(self).conns(), x@)),
                None => assert(self.conns() =~= all_inactive(old(self).conns())),
            }
        }
    }

    /// Rewrites the active flags of the model configurations: with
    /// `keep_for`, only active ones on that connection stay active; with
    /// `only`, exactly that configuration is active; with neither, none is.
    fn set_config_flags(&mut self, keep_for: Option<&str>, only: Option<&str>)
        requires
            keep_for is None || only is None,
        ensures
            final(self).configs() == match (keep_for, only) {
                (Some(x), _) => kept_for(old(self).configs(), x@),
                (None, Some(y)) => only_config(old(self).configs(), y@),
                (None, None) => configs_inactive(old(self).configs()),
            },
            final(self).conns() == old(self).conns(),
    {
        let mut next: Vec<ModelConfig> = Vec::new();
        let mut i: usize = 0;
        while i < self.model_configs.len()
            invariant
                i <= self.model_configs@.len(),
                self == old(self),
                keep_for is None || only is None,
                next@.len() == i,
                forall|j: int| 0 <= j < i ==> (#[trigger] next@[j])@ == config_with_active(
                    self.configs()[j],
                    match (keep_for, only) {
                        (Some(x), _) => self.configs()[j].is_active && self.configs()[j].connection_id == x@,
                        (None, Some(y)) => self.configs()[j].id == y@,
                        (None, None) => false,
                    },
                ),
            decreases self.model_configs@.len() - i,
        {
            let m = &self.model_configs[i];
            let active = match keep_for {
                Some(x) => m.is_active && str_eq(m.connection_id.as_str(), x),
                None => match only {
                    Some(y) => str_eq(m.id.as_str(), y),
                    None => false,
                },
            };
            next.push(m.duplicate_with(active));
            i = i + 1;
        }
        self.model_configs = next;
        proof {
            match (keep_for, only) {
                (Some(x), _) => assert(self.configs() =~= kept_for(old(self).configs(), x@)),
                (None, Some(y)) => assert(self.configs() =~= only_config(old(self).configs(), y@)),
                (None, None) => assert(self.configs() =~= configs_inactive(old(self).configs())),
            }
        }
    }

    /// Makes `id` the only active connection and drops an active model that
    /// belongs to another one, in one step, so there is never a moment with
    /// two active connections or an active model nothing can reach.
    pub fn apply_active_connection(&mut self, id: &str) -> (r: Result<(), String>)
        ensures
            match r {
                Ok(()) => {
                    &&& has_connection(old(self).conns(), id@)
                    &&& final(self).conns() == activated(old(self).conns(), id@)
                    &&& final(self).configs() == kept_for(old(self).configs(), id@)
                },
                Err(e) => {
                    &&& !has_connection(old(self).conns(), id@)
                    &&& e@ == NOT_FOUND@
                    &&& final(self).conns() == old(self).conns()
                    &&& final(self).configs() == old(self).configs()
                },
            },
    {
        if self.position_of(id).is_none() {
            return Err(owned(NOT_FOUND));
        }
        self.set_connection_flags(Some(id));
        self.set_config_flags(Some(id), None);
        Ok(())
    }

    /// `apply_active_connection` as one transaction of its own: on an error
    /// nothing changes.
    pub fn set_active_connection(&mut self, id: &str) -> (r: Result<(), String>)
        ensures
            match r {
                Ok(()) => {
                    &&& has_connection(old(self).conns(), id@)
                    &&& final(self).conns() == activated(old(self).conns(), id@)
                    &&& final(self).configs() == kept_for(old(self).configs(), id@)
                },
                Err(e) => {
                    &&& !has_connection(old(self).conns(), id@)
                    &&& e@ == NOT_FOUND@
                    &&& final(self).conns() == old(self).conns()
                    &&& final(self).configs() == old(self).configs()
                },
            },
    {
        self.apply_active_connection(id)
    }

    /// No connection and no model active: a model cannot stay active without
    /// a connection to reach it through.
    pub fn clear_active_connection(&mut self)
        ensures
            final(self).conns() == all_inactive(old(self).conns()),
            final(self).configs() == configs_inactive(old(self).configs()),
    {
        self.set_connection_flags(None);
        self.set_config_flags(None, None);
    }

    fn find_config(&self, connection_id: &str, model_name: &str) -> (i: Option<usize>)
        ensures
            match (i, config_for(self.configs(), connection_id@, model_name@)) {
                (Some(a), Some(b)) => a == b && a < self.configs().len(),
                (None, None) => true,
                _ => false,
            },
    {
        proof {
            lemma_config_for(self.configs(), connection_id@, model_name@);
        }
        let mut i: usize = 0;
        while i < self.model_configs.len()
            invariant
                i <= self.model_configs@.len(),
                forall|j: int| 0 <= j < i ==> !((#[trigger] self.configs()[j]).connection_id == connection_id@
                    && self.configs()[j].model_name == model_name@),
                config_for(self.configs(), connection_id@, model_name@) matches Some(k) ==> 0 <= k < self.configs().len()
                    && self.configs()[k].connection_id == connection_id@ && self.configs()[k].model_name == model_name@
                    && forall|j: int| 0 <= j < k ==> !((#[trigger] self.configs()[j]).connection_id == connection_id@
                        && self.configs()[j].model_name == model_name@),
                config_for(self.configs(), connection_id@, model_name@) is None ==> forall|j: int|
                    0 <= j < self.configs().len() ==> !((#[trigger] self.configs()[j]).connection_id == connection_id@
                        && self.configs()[j].model_name == model_name@),
            decreases self.model_configs@.len() - i,
        {
            let m = &self.model_configs[i];
            if str_eq(m.connection_id.as_str(), connection_id) && str_eq(m.model_name.as_str(), model_name) {
                proof {
                    assert(self.configs()[i as int] == self.model_configs@[i as int]@);
                    if let Some(k) = config_for(self.configs(), connection_id@, model_name@) {
                        if k < i {
                            assert(!(self.configs()[k].connection_id == connection_id@ && self.configs()[k].model_name == model_name@));
                        } else if k > i {
                            assert(!(self.configs()[i as int].connection_id == connection_id@
                                && self.configs()[i as int].model_name == model_name@));
                        }
                    }
                }
                return Some(i);
            }
            i = i + 1;
        }
        None
    }

    /// The configuration of `model_name` on `connection_id`, stored first
    /// (inactive, with no settings) under `new_id` when there is none yet.
    /// Returns its identifier.
    pub fn insert_model_config(&mut self, connection_id: &str, model_name: &str, new_id: String) -> (r: Result<String, String>)
        ensures
            match config_for(old(self).configs(), connection_id@, model_name@) {
                Some(k) => r matches Ok(id) && id@ == old(self).configs()[k].id && final(self).configs() == old(self).configs(),
                None => match r {
                    Ok(id) => {
                        &&& id@ == new_id@
                        &&& !has_config_id(old(self).configs(), new_id@)
                        &&& final(self).configs() == old(self).configs().push(new_config(new_id@, connection_id@, model_name@))
                    },
                    Err(e) => {
                        &&& has_config_id(old(self).configs(), new_id@)
                        &&& e@ == DUPLICATE_CONFIG_ID@
                        &&& final(self).configs() == old(self).configs()
                    },
                },
            },
            final(self).conns() == old(self).conns(),
    {
        match self.find_config(connection_id, model_name) {
            Some(k) => Ok(self.model_configs[k].id.clone()),
            None => {
                if self.config_position(new_id.as_str()).is_some() {
                    return Err(owned(DUPLICATE_CONFIG_ID));
                }
                let m = ModelConfig {
                    id: new_id,
                    connection_id: owned(connection_id),
                    model_name: owned(model_name),
                    context_length: None,
                    gpu_offload: None,
                    is_active: false,
                };
                let id = m.id.clone();
                self.model_configs.push(m);
                assert(self.configs() =~= old(self).configs().push(new_config(new_id@, connection_id@, model_name@)));
                Ok(id)
            },
        }
    }

    /// The configuration of `model_name` on `connection_id`, created under a
    /// fresh identifier when there is none yet.
    pub fn get_or_create_model_config(&mut self, connection_id: &str, model_name: &str) -> (r: Result<String, String>)
        ensures
            match config_for(old(self).configs(), connection_id@, model_name@) {
                Some(k) => r matches Ok(id) && id@ == old(self).configs()[k].id && final(self).configs() == old(self).configs(),
                None => match r {
                    Ok(id) => {
                        &&& !has_config_id(old(self).configs(), id@)
                        &&& final(self).configs() == old(self).configs().push(new_config(id@, connection_id@, model_name@))
                    },
                    Err(e) => {
                        &&& e@ == DUPLICATE_CONFIG_ID@
                        &&& holds_drawable_config_id(old(self).configs())
                        &&& old(self).configs().len() > 0
                        &&& final(self).configs() == old(self).configs()
                    },
                },
            },
            !holds_drawable_config_id(old(self).configs()) ==> r is Ok,
            final(self).conns() == old(self).conns(),
    {
        let id = new_id();
        let ghost drawn = id@;
        let r = self.insert_model_config(connection_id, model_name, id);
        proof {
            if r is Err {
                assert(drawn.len() == 36 && has_config_id(old(self).configs(), drawn));
                let i = choose|i: int| 0 <= i < old(self).configs().len() && (#[trigger] old(self).configs()[i]).id == drawn;
            }
        }
        r
    }

    /// Picks a model and activates the connection it belongs to as one step:
    /// two separate steps would leave a moment where the active model belongs
    /// to an inactive connection. On an error nothing changes.
    pub fn set_active_model(&mut self, connection_id: &str, model_name: &str) -> (r: Result<(), String>)
        ensures
            !has_connection(old(self).conns(), connection_id@) ==> (r matches Err(e) && e@ == NOT_FOUND@),
            has_connection(old(self).conns(), connection_id@) && (config_for(old(self).configs(), connection_id@, model_name@) is Some
                || !holds_drawable_config_id(old(self).configs())) ==> r is Ok,
            r matches Err(e) ==> (e@ == NOT_FOUND@ && !has_connection(old(self).conns(), connection_id@)) || (
                e@ == DUPLICATE_CONFIG_ID@ && has_connection(old(self).conns(), connection_id@)
                && config_for(old(self).configs(), connection_id@, model_name@) is None
                && holds_drawable_config_id(old(self).configs()) && old(self).configs().len() > 0),
            match r {
                Ok(()) => {
                    &&& has_connection(old(self).conns(), connection_id@)
                    &&& final(self).conns() == activated(old(self).conns(), connection_id@)
                    &&& match config_for(old(self).configs(), connection_id@, model_name@) {
                        Some(k) => final(self).configs() == only_config(
                            kept_for(old(self).configs(), connection_id@),
                            old(self).configs()[k].id,
                        ),
                        None => exists|id: Seq<char>| {
                            &&& !has_config_id(old(self).configs(), id)
                            &&& final(self).configs() == only_config(
                                kept_for(old(self).configs(), connection_id@).push(new_config(id, connection_id@, model_name@)),
                                id,
                            )
                        },
                    }
                },
                Err(_) => final(self).conns() == old(self).conns() && final(self).configs() == old(self).configs(),
            },
    {
        if self.position_of(connection_id).is_none() {
            return Err(owned(NOT_FOUND));
        }
        let fresh = new_id();
        if self.find_config(connection_id, model_name).is_none() && self.config_position(fresh.as_str()).is_some() {
            proof {
                assert(fresh@.len() == 36 && has_config_id(self.configs(), fresh@));
                let i = choose|i: int| 0 <= i < self.configs().len() && (#[trigger] self.configs()[i]).id == fresh@;
            }
            return Err(owned(DUPLICATE_CONFIG_ID));
        }
        let ghost before = self.configs();
        let _ = self.apply_active_connection(connection_id);
        proof {
            lemma_kept_for_keys(before, connection_id@, model_name@);
            lemma_kept_for_ids(before, connection_id@, fresh@);
        }
        let id = match self.insert_model_config(connection_id, model_name, fresh) {
            Ok(id) => id,
            Err(e) => {
                proof {
                    assert(false);
                }
                return Err(e);
            },
        };
        let ghost mid = self.configs();
        self.set_config_flags(None, Some(id.as_str()));
        proof {
            match config_for(before, connection_id@, model_name@) {
                Some(k) => {
                    assert(kept_for(before, connection_id@)[k].id == before[k].id);
                },
                None => {
                    assert(mid == kept_for(before, connection_id@).push(new_config(id@, connection_id@, model_name@)));
                    assert(!has_config_id(before, id@));
                },
            }
        }
        Ok(())
    }

    /// The first active model configuration, as the chat reads it.
    pub fn active_model(&self) -> (r: Option<ActiveModel>)
        ensures
            match first_active_config(self.configs()) {
                Some(k) => r matches Some(a) && (a.connection_id@, a.model_name@, a.context_length, text_view(a.gpu_offload))
                    == active_model_of(self.configs()[k]),
                None => r is None,
            },
    {
        proof {
            lemma_first_active_config(self.configs());
        }
        let mut i: usize = 0;
        while i < self.model_configs.len()
            invariant
                i <= self.model_configs@.len(),
                forall|j: int| 0 <= j < i ==> !(#[trigger] self.configs()[j]).is_active,
                first_active_config(self.configs()) matches Some(k) ==> 0 <= k < self.configs().len() && self.configs()[k].is_active
                    && forall|j: int| 0 <= j < k ==> !(#[trigger] self.configs()[j]).is_active,
                first_active_config(self.configs()) is None ==> forall|j: int| 0 <= j < self.configs().len()
                    ==> !(#[trigger] self.configs()[j]).is_active,
            decreases self.model_configs@.len() - i,
        {
            let m = &self.model_configs[i];
            if m.is_active {
                proof {
                    assert(self.configs()[i as int] == self.model_configs@[i as int]@);
                    if let Some(k) = first_active_config(self.configs()) {
                        if k < i {
                            assert(!self.configs()[k].is_active);
                        } else if k > i {
                            assert(!self.configs()[i as int].is_active);
                        }
                    }
                }
                return Some(ActiveModel {
                    connection_id: m.connection_id.clone(),
                    model_name: m.model_name.clone(),
                    context_length: m.context_length,
                    gpu_offload: copy_text(&m.gpu_offload),
                });
            }
            i = i + 1;
        }
        None
    }

    /// "Who answers now" as one answer: the active connection and its active
    /// model. The model can be missing while the connection is set.
    pub fn active_pair(&self) -> (p: ActivePair)
        ensures
            match first_active(self.conns()) {
                Some(k) => p.connection matches Some(c) && c@ == self.conns()[k],
                None => p.connection is None,
            },
            match first_active_config(self.configs()) {
                Some(k) => p.model matches Some(a) && (a.connection_id@, a.model_name@, a.context_length, text_view(a.gpu_offload))
                    == active_model_of(self.configs()[k]),
                None => p.model is None,
            },
    {
        ActivePair { connection: self.active_connection(), model: self.active_model() }
    }

    /// The pair a chat message goes to. Missing either half is an error
    /// before any request is made.
    pub fn active_target(&self) -> (r: Result<ActiveTarget, String>)
        ensures
            match (first_active(self.conns()), first_active_config(self.configs())) {
                (None, _) => r matches Err(e) && e@ == NO_ACTIVE_CONNECTION@,
                (Some(_), None) => r matches Err(e) && e@ == NO_ACTIVE_MODEL@,
                (Some(c), Some(m)) => r matches Ok(t) && t.connection@ == self.conns()[c]
                    && t.model_name@ == self.configs()[m].model_name
                    && t.context_length == self.configs()[m].context_length
                    && text_view(t.gpu_offload) == self.configs()[m].gpu_offload,
            },
    {
        let connection = match self.active_connection() {
            Some(c) => c,
            None => return Err(owned(NO_ACTIVE_CONNECTION)),
        };
        match self.active_model() {
            Some(m) => Ok(ActiveTarget {
                connection,
                model_name: m.model_name,
                context_length: m.context_length,
                gpu_offload: m.gpu_offload,
            }),
            None => Err(owned(NO_ACTIVE_MODEL)),
        }
    }
}

proof fn lemma_kept_for_ids(ms: Seq<ModelConfigView>, connection_id: Seq<char>, id: Seq<char>)
    ensures
        has_config_id(kept_for(ms, connection_id), id) == has_config_id(ms, id),
{
    let k = kept_for(ms, connection_id);
    if has_config_id(ms, id) {
        let i = choose|i: int| 0 <= i < ms.len() && (#[trigger] ms[i]).id == id;
        assert(k[i].id == id);
    }
    if has_config_id(k, id) {
        let i = choose|i: int| 0 <= i < k.len() && (#[trigger] k[i]).id == id;
        assert(ms[i].id == id);
    }
}

proof fn lemma_kept_for_keys(ms: Seq<ModelConfigView>, connection_id: Seq<char>, model_name: Seq<char>)
    ensures
        config_for(kept_for(ms, connection_id), connection_id, model_name) == config_for(ms, connection_id, model_name),
    decreases ms.len(),
{
    let k = kept_for(ms, connection_id);
    if ms.len() > 0 {
        assert(kept_for(ms.drop_first(), connection_id) =~= k.drop_first());
        lemma_kept_for_keys(ms.drop_first(), connection_id, model_name);
    }
}


/// The runtimes the app knows how to reach without the user typing a URL.
pub open spec fn known_candidates() -> Seq<(Seq<char>, Seq<char>)> {
    seq![("ollama"@, "http://localhost:11434"@), ("lmstudio"@, "http://localhost:1234"@)]
}

pub open spec fn candidates_view(cs: Seq<ConnectionCandidate>) -> Seq<(Seq<char>, Seq<char>)> {
    cs.map_values(|c: ConnectionCandidate| (c.provider@, c.base_url@))
}

/// Which client speaks to a connection.
#[derive(Debug, Clone, Copy, PartialEq, Eq, Structural)]
pub enum ProviderKind {
    Ollama,
    LmStudio,
    Custom,
}

/// Offers the known runtimes and decides how each stored one is reached.
#[derive(Debug)]
pub struct ConnectionManager {}

impl ConnectionManager {
    pub fn new() -> (m: ConnectionManager)
        ensures
            m == (ConnectionManager {}),
    {
        ConnectionManager {}
    }

    /// Ollama and LM Studio at their default local addresses.
    pub fn detect_known_connections(&self) -> (v: Vec<ConnectionCandidate>)
        ensures
            candidates_view(v@) == known_candidates(),
    {
        let mut v: Vec<ConnectionCandidate> = Vec::new();
        v.push(ConnectionCandidate { provider: owned("ollama"), base_url: owned("http://localhost:11434") });
        v.push(ConnectionCandidate { provider: owned("lmstudio"), base_url: owned("http://localhost:1234") });
        assert(candidates_view(v@) =~= known_candidates());
        v
    }

    /// The client for a connection: its provider name picks Ollama or
    /// LM Studio, and anything else is treated as a generic OpenAI-compatible
    /// server.
    pub fn provider_for(&self, conn: &Connection) -> (k: ProviderKind)
        ensures
            k == if conn.provider@ == "ollama"@ {
                ProviderKind::Ollama
            } else if conn.provider@ == "lmstudio"@ {
                ProviderKind::LmStudio
            } else {
                ProviderKind::Custom
            },
    {
        if str_eq(conn.provider.as_str(), "ollama") {
            ProviderKind::Ollama
        } else if str_eq(conn.provider.as_str(), "lmstudio") {
            ProviderKind::LmStudio
        } else {
            ProviderKind::Custom
        }
    }

    /// A connection is available exactly when its health check succeeded.
    pub fn refresh_status(&self, healthy: bool) -> (s: ConnectionStatus)
        ensures
            s == if healthy { ConnectionStatus::Available } else { ConnectionStatus::Unavailable },
    {
        if healthy {
            ConnectionStatus::Available
        } else {
            ConnectionStatus::Unavailable
        }
    }
}

pub open spec fn has_provider(cs: Seq<ConnView>, provider: Seq<char>) -> bool {
    exists|i: int| 0 <= i < cs.len() && (#[trigger] cs[i]).provider == provider
}

/// The candidates whose provider is not stored yet, in order.
pub open spec fn missing_candidates(cands: Seq<(Seq<char>, Seq<char>)>, cs: Seq<ConnView>) -> Seq<(Seq<char>, Seq<char>)>
    decreases cands.len(),
{
    if cands.len() == 0 {
        Seq::empty()
    } else {
        let rest = missing_candidates(cands.drop_last(), cs);
        if has_provider(cs, cands.last().0) { rest } else { rest.push(cands.last()) }
    }
}

/// Looking at more candidates never leaves fewer of them missing.
proof fn lemma_missing_grows(cands: Seq<(Seq<char>, Seq<char>)>, cs: Seq<ConnView>, k: int)
    requires
        0 <= k <= cands.len(),
    ensures
        missing_candidates(cands.take(k), cs).len() <= missing_candidates(cands, cs).len(),
    decreases cands.len() - k,
{
    if k < cands.len() {
        assert(cands.take(k + 1).drop_last() =~= cands.take(k));
        lemma_missing_grows(cands, cs, k + 1);
    } else {
        assert(cands.take(k) =~= cands);
    }
}

/// `added` holds, in order, a new inactive connection for each of `wanted`.
pub open spec fn adds_each(added: Seq<ConnView>, wanted: Seq<(Seq<char>, Seq<char>)>) -> bool {
    &&& added.len() == wanted.len()
    &&& forall|j: int| 0 <= j < added.len() ==> (#[trigger] added[j]) == new_connection(added[j].id, wanted[j].0, wanted[j].1)
}

impl Registry {
    /// Stores each candidate whose provider has no connection yet, inactive
    /// and in order; the connections already stored are left as they are.
    pub fn seed_known_connections(&mut self, candidates: &[ConnectionCandidate]) -> (r: Result<(), String>)
        ensures
            final(self).configs() == old(self).configs(),
            old(self).conns().len() <= final(self).conns().len(),
            final(self).conns().take(old(self).conns().len() as int) == old(self).conns(),
            r is Ok ==> adds_each(
                final(self).conns().skip(old(self).conns().len() as int),
                missing_candidates(candidates_view(candidates@), old(self).conns()),
            ),
            r matches Err(e) ==> {
                &&& e@ == DUPLICATE_CONNECTION_ID@
                &&& missing_candidates(candidates_view(candidates@), old(self).conns()).len() > 0
                &&& holds_drawable_connection_id(final(self).conns())
                &&& final(self).conns().len() > 0
            },
            missing_candidates(candidates_view(candidates@), old(self).conns()).len() == 0 ==> r is Ok,
    {
        let ghost start = self.conns();
        let ghost cands = candidates_view(candidates@);
        let n = self.connections.len();
        let mut i: usize = 0;
        assert(self.conns().take(n as int) =~= start);
        assert(self.conns().skip(n as int) =~= Seq::<ConnView>::empty());
        while i < candidates.len()
            invariant
                i <= candidates@.len(),
                n == start.len(),
                start == old(self).conns(),
                cands == candidates_view(candidates@),
                self.configs() == old(self).configs(),
                n <= self.conns().len(),
                self.conns().take(n as int) == start,
                adds_each(self.conns().skip(n as int), missing_candidates(cands.take(i as int), start)),
            decreases candidates@.len() - i,
        {
            let c = &candidates[i];
            let mut present = false;
            let mut j: usize = 0;
            while j < n
                invariant
                    j <= n,
                    n == start.len(),
                    n <= self.conns().len(),
                    self.conns().take(n as int) == start,
                    present == exists|k: int| 0 <= k < j && (#[trigger] start[k]).provider == c.provider@,
                decreases n - j,
            {
                assert(self.conns()[j as int] == start[j as int]);
                if str_eq(self.connections[j].provider.as_str(), c.provider.as_str()) {
                    present = true;
                }
                j = j + 1;
            }
            assert(cands.take(i + 1).drop_last() =~= cands.take(i as int));
            assert(cands.take(i + 1).last() == (c.provider@, c.base_url@));
            if !present {
                let ghost before = self.conns();
                match self.create_connection(owned(c.provider.as_str()), owned(c.base_url.as_str())) {
                    Ok(_) => {},
                    Err(e) => {
                        proof {
                            assert(!has_provider(start, c.provider@));
                            assert(missing_candidates(cands.take(i + 1), start).len() >= 1);
                            lemma_missing_grows(cands, start, i + 1);
                        }
                        return Err(e);
                    },
                }
                proof {
                    assert(self.conns().take(n as int) =~= before.take(n as int));
                    assert(self.conns().skip(n as int) =~= before.skip(n as int).push(self.conns().last()));
                }
            }
            i = i + 1;
        }
        assert(cands.take(candidates@.len() as int) =~= cands);
        Ok(())
    }

    /// Stores the settings a runtime accepted for `model_name`, creating its
    /// configuration first when there is none.
    pub fn record_applied_config(&mut self, connection_id: &str, model_name: &str, applied: &ConfigApplied) -> (r: Result<(), String>)
        ensures
            final(self).conns() == old(self).conns(),
            config_for(old(self).configs(), connection_id@, model_name@) is Some ==> r is Ok,
            r is Ok ==> match config_for(old(self).configs(), connection_id@, model_name@) {
                Some(k) => final(self).configs() == old(self).configs().update(
                    k,
                    with_settings(old(self).configs()[k], applied.context_length_applied, text_view(applied.gpu_offload_applied)),
                ),
                None => exists|id: Seq<char>| {
                    &&& !has_config_id(old(self).configs(), id)
                    &&& final(self).configs() == old(self).configs().push(with_settings(
                        new_config(id, connection_id@, model_name@),
                        applied.context_length_applied,
                        text_view(applied.gpu_offload_applied),
                    ))
                },
            },
            r is Ok ==> (config_for(final(self).configs(), connection_id@, model_name@) matches Some(k)
                && final(self).configs()[k].context_length == applied.context_length_applied
                && final(self).configs()[k].gpu_offload == text_view(applied.gpu_offload_applied)),
            r is Err ==> final(self).configs() == old(self).configs(),
            !holds_drawable_config_id(old(self).configs()) ==> r is Ok,
            r matches Err(e) ==> e@ == DUPLICATE_CONFIG_ID@ && config_for(old(self).configs(), connection_id@, model_name@) is None
                && holds_drawable_config_id(old(self).configs()) && old(self).configs().len() > 0,
    {
        proof {
            lemma_config_for(old(self).configs(), connection_id@, model_name@);
        }
        let k = match self.find_config(connection_id, model_name) {
            Some(k) => k,
            None => {
                let fresh = new_id();
                let ghost drawn = fresh@;
                match self.insert_model_config(connection_id, model_name, fresh) {
                    Ok(_) => {},
                    Err(e) => {
                        proof {
                            assert(drawn.len() == 36 && has_config_id(old(self).configs(), drawn));
                            let i = choose|i: int| 0 <= i < old(self).configs().len()
                                && (#[trigger] old(self).configs()[i]).id == drawn;
                        }
                        return Err(e);
                    },
                }
                assert(self.configs().len() == self.model_configs@.len());
                self.model_configs.len() - 1
            },
        };
        let ghost before = self.configs();
        let ghost ctx = applied.context_length_applied;
        let ghost gpu = text_view(applied.gpu_offload_applied);
        let mut next: Vec<ModelConfig> = Vec::new();
        let mut i: usize = 0;
        while i < self.model_configs.len()
            invariant
                i <= self.model_configs@.len(),
                k < self.model_configs@.len(),
                before == self.configs(),
                ctx == applied.context_length_applied,
                gpu == text_view(applied.gpu_offload_applied),
                next@.len() == i,
                forall|j: int| 0 <= j < i ==> (#[trigger] next@[j])@ == (if j == k {
                    with_settings(before[j], ctx, gpu)
                } else {
                    before[j]
                }),
            decreases self.model_configs@.len() - i,
        {
            let mut m = self.model_configs[i].duplicate_with(self.model_configs[i].is_active);
            if i == k {
                m.context_length = applied.context_length_applied;
                m.gpu_offload = copy_text(&applied.gpu_offload_applied);
            }
            next.push(m);
            i = i + 1;
        }
        self.model_configs = next;
        assert(self.configs() =~= before.update(k as int, with_settings(before[k as int], ctx, gpu)));
        proof {
            lemma_recorded_settings_read_back(old(self).configs(), connection_id@, model_name@, ctx, gpu, before[k as int].id);
        }
        Ok(())
    }
}

/// The first configuration of `connection_id` and `model_name` is the one
/// found for them.
proof fn lemma_config_for_first(ms: Seq<ModelConfigView>, connection_id: Seq<char>, model_name: Seq<char>, i: int)
    requires
        0 <= i < ms.len(),
        ms[i].connection_id == connection_id && ms[i].model_name == model_name,
        forall|j: int| 0 <= j < i ==> !((#[trigger] ms[j]).connection_id == connection_id && ms[j].model_name == model_name),
    ensures
        config_for(ms, connection_id, model_name) == Some(i),
    decreases i,
{
    if i > 0 {
        assert(!(ms[0].connection_id == connection_id && ms[0].model_name == model_name));
        assert forall|j: int| 0 <= j < i - 1 implies !((#[trigger] ms.drop_first()[j]).connection_id == connection_id
            && ms.drop_first()[j].model_name == model_name) by {
            assert(ms.drop_first()[j] == ms[j + 1]);
        }
        lemma_config_for_first(ms.drop_first(), connection_id, model_name, i - 1);
    }
}

/// Recording the settings a runtime accepted for a model, whether its
/// configuration existed or is created with identifier `id`, leaves that
/// model's configuration holding exactly the accepted context length and GPU
/// offload, whatever it held before.
pub proof fn lemma_recorded_settings_read_back(
    ms: Seq<ModelConfigView>,
    connection_id: Seq<char>,
    model_name: Seq<char>,
    context_length: Option<u32>,
    gpu_offload: Option<Seq<char>>,
    id: Seq<char>,
)
    ensures
        config_for(ms, connection_id, model_name) matches Some(k) ==> {
            let after = ms.update(k, with_settings(ms[k], context_length, gpu_offload));
            &&& config_for(after, connection_id, model_name) == Some(k)
            &&& after[k].context_length == context_length
            &&& after[k].gpu_offload == gpu_offload
            &&& after[k].id == ms[k].id
        },
        config_for(ms, connection_id, model_name) is None ==> {
            let after = ms.push(with_settings(new_config(id, connection_id, model_name), context_length, gpu_offload));
            &&& config_for(after, connection_id, model_name) == Some(ms.len() as int)
            &&& after[ms.len() as int].context_length == context_length
            &&& after[ms.len() as int].gpu_offload == gpu_offload
            &&& after[ms.len() as int].id == id
        },
{
    lemma_config_for(ms, connection_id, model_name);
    match config_for(ms, connection_id, model_name) {
        Some(k) => {
            let after = ms.update(k, with_settings(ms[k], context_length, gpu_offload));
            assert forall|j: int| 0 <= j < k implies !((#[trigger] after[j]).connection_id == connection_id
                && after[j].model_name == model_name) by {
                assert(after[j] == ms[j]);
            }
            lemma_config_for_first(after, connection_id, model_name, k);
        },
        None => {
            let after = ms.push(with_settings(new_config(id, connection_id, model_name), context_length, gpu_offload));
            assert forall|j: int| 0 <= j < ms.len() implies !((#[trigger] after[j]).connection_id == connection_id
                && after[j].model_name == model_name) by {
                assert(after[j] == ms[j]);
            }
            lemma_config_for_first(after, connection_id, model_name, ms.len() as int);
        },
    }
}

/// Activating a stored connection leaves exactly that connection active, and
/// only models that belong to it.
pub proof fn lemma_activation_is_exclusive(cs: Seq<ConnView>, ms: Seq<ModelConfigView>, id: Seq<char>)
    requires
        well_formed(cs, ms),
        has_connection(cs, id),
    ensures
        exists|i: int| 0 <= i < cs.len() && (#[trigger] activated(cs, id)[i]).is_active && activated(cs, id)[i].id == id,
        forall|i: int| 0 <= i < cs.len() && (#[trigger] activated(cs, id)[i]).is_active ==> activated(cs, id)[i].id == id,
        forall|i: int, j: int| 0 <= i < cs.len() && 0 <= j < cs.len() && (#[trigger] activated(cs, id)[i]).is_active
            && (#[trigger] activated(cs, id)[j]).is_active ==> i == j,
        forall|i: int| 0 <= i < ms.len() && (#[trigger] kept_for(ms, id)[i]).is_active ==> kept_for(ms, id)[i].connection_id == id,
{
    let i = choose|i: int| 0 <= i < cs.len() && (#[trigger] cs[i]).id == id;
    assert(activated(cs, id)[i].is_active);
}

/// Every change the registry makes keeps it well formed: unique
/// identifiers, one configuration per model and connection, at most one
/// active connection and model, and the active model on the active
/// connection.
pub proof fn lemma_changes_keep_well_formed(
    cs: Seq<ConnView>,
    ms: Seq<ModelConfigView>,
    id: Seq<char>,
    model_name: Seq<char>,
    fresh: Seq<char>,
)
    requires
        well_formed(cs, ms),
    ensures
        has_connection(cs, id) ==> well_formed(activated(cs, id), kept_for(ms, id)),
        well_formed(all_inactive(cs), configs_inactive(ms)),
        !has_connection(cs, fresh) ==> well_formed(cs.push(new_connection(fresh, id, model_name)), ms),
        config_for(ms, id, model_name) is None && !has_config_id(ms, fresh)
            ==> well_formed(cs, ms.push(new_config(fresh, id, model_name))),
        has_connection(cs, id) ==> match config_for(ms, id, model_name) {
            Some(k) => well_formed(activated(cs, id), only_config(kept_for(ms, id), ms[k].id)),
            None => !has_config_id(ms, fresh) ==> well_formed(
                activated(cs, id),
                only_config(kept_for(ms, id).push(new_config(fresh, id, model_name)), fresh),
            ),
        },
{
    lemma_config_for(ms, id, model_name);
    if has_connection(cs, id) {
        let a = activated(cs, id);
        let k = kept_for(ms, id);
        let w = choose|w: int| 0 <= w < cs.len() && (#[trigger] cs[w]).id == id;
        assert(a[w].is_active && a[w].id == id);
        assert forall|i: int| 0 <= i < k.len() && (#[trigger] k[i]).is_active implies exists|j: int|
            0 <= j < a.len() && (#[trigger] a[j]).is_active && a[j].id == k[i].connection_id by {
            assert(a[w].is_active);
        }
        assert(well_formed(a, k));
        match config_for(ms, id, model_name) {
            Some(q) => {
                let o = only_config(k, ms[q].id);
                assert forall|i: int| 0 <= i < o.len() && (#[trigger] o[i]).is_active implies exists|j: int|
                    0 <= j < a.len() && (#[trigger] a[j]).is_active && a[j].id == o[i].connection_id by {
                    assert(i == q);
                    assert(a[w].is_active);
                }
                assert(well_formed(a, o));
            },
            None => {
                if !has_config_id(ms, fresh) {
                    let e = k.push(new_config(fresh, id, model_name));
                    let o = only_config(e, fresh);
                    assert forall|i: int| 0 <= i < o.len() && (#[trigger] o[i]).is_active implies exists|j: int|
                        0 <= j < a.len() && (#[trigger] a[j]).is_active && a[j].id == o[i].connection_id by {
                        if i < ms.len() {
                            assert(ms[i].id != fresh);
                        }
                        assert(a[w].is_active);
                    }
                    assert forall|i: int, j: int| 0 <= i < e.len() && 0 <= j < e.len() && i != j
                        implies #[trigger] e[i].id != #[trigger] e[j].id by {
                        if i < ms.len() && j < ms.len() {
                            assert(ms[i].id != ms[j].id);
                        } else if i < ms.len() {
                            assert(ms[i].id != fresh);
                        } else if j < ms.len() {
                            assert(ms[j].id != fresh);
                        }
                    }
                    assert forall|i: int, j: int| 0 <= i < o.len() && 0 <= j < o.len() && #[trigger] o[i].is_active
                        && #[trigger] o[j].is_active implies i == j by {
                        assert(e[i].id == fresh && e[j].id == fresh);
                    }
                    assert(well_formed(a, o));
                }
            },
        }
    }
    let ci = all_inactive(cs);
    let mi = configs_inactive(ms);
    assert(well_formed(ci, mi));
    if !has_connection(cs, fresh) {
        let c2 = cs.push(new_connection(fresh, id, model_name));
        assert forall|i: int| 0 <= i < ms.len() && (#[trigger] ms[i]).is_active implies exists|j: int|
            0 <= j < c2.len() && (#[trigger] c2[j]).is_active && c2[j].id == ms[i].connection_id by {
            let j = choose|j: int| 0 <= j < cs.len() && (#[trigger] cs[j]).is_active && cs[j].id == ms[i].connection_id;
            assert(c2[j] == cs[j]);
        }
        assert(well_formed(c2, ms));
    }
    if config_for(ms, id, model_name) is None && !has_config_id(ms, fresh) {
        let m2 = ms.push(new_config(fresh, id, model_name));
        assert forall|i: int| 0 <= i < m2.len() && (#[trigger] m2[i]).is_active implies exists|j: int|
            0 <= j < cs.len() && (#[trigger] cs[j]).is_active && cs[j].id == m2[i].connection_id by {
            assert(m2[i] == ms[i]);
        }
        assert(well_formed(cs, m2));
    }
}

/// Looking a model's configuration up again after it was created finds the
/// same one: a second "get or create" changes nothing.
pub proof fn lemma_config_lookup_is_stable(ms: Seq<ModelConfigView>, connection_id: Seq<char>, model_name: Seq<char>, id: Seq<char>)
    requires
        config_for(ms, connection_id, model_name) is None,
    ensures
        config_for(ms.push(new_config(id, connection_id, model_name)), connection_id, model_name) == Some(ms.len() as int),
    decreases ms.len(),
{
    let e = ms.push(new_config(id, connection_id, model_name));
    if ms.len() > 0 {
        assert(e.drop_first() =~= ms.drop_first().push(new_config(id, connection_id, model_name)));
        lemma_config_lookup_is_stable(ms.drop_first(), connection_id, model_name, id);
    }
}

/// After seeding, every known runtime has a connection.
pub proof fn lemma_seeding_covers_every_candidate(
    before: Seq<ConnView>,
    after: Seq<ConnView>,
    cands: Seq<(Seq<char>, Seq<char>)>,
)
    requires
        before.len() <= after.len(),
        after.take(before.len() as int) == before,
        adds_each(after.skip(before.len() as int), missing_candidates(cands, before)),
    ensures
        forall|i: int| 0 <= i < cands.len() ==> has_provider(after, (#[trigger] cands[i]).0),
{
    assert forall|i: int| 0 <= i < cands.len() implies has_provider(after, (#[trigger] cands[i]).0) by {
        lemma_missing_candidates(cands, before, i);
        if has_provider(before, cands[i].0) {
            let k = choose|k: int| 0 <= k < before.len() && (#[trigger] before[k]).provider == cands[i].0;
            assert(after[k] == after.take(before.len() as int)[k]);
        } else {
            let m = missing_candidates(cands, before);
            let j = choose|j: int| 0 <= j < m.len() && m[j] == cands[i];
            let added = after.skip(before.len() as int);
            assert(added[j] == new_connection(added[j].id, m[j].0, m[j].1));
            assert(after[before.len() + j] == added[j]);
        }
    }
}

proof fn lemma_missing_candidates(cands: Seq<(Seq<char>, Seq<char>)>, cs: Seq<ConnView>, i: int)
    requires
        0 <= i < cands.len(),
    ensures
        !has_provider(cs, cands[i].0) ==> exists|j: int| 0 <= j < missing_candidates(cands, cs).len()
            && missing_candidates(cands, cs)[j] == cands[i],
    decreases cands.len(),
{
    let m = missing_candidates(cands, cs);
    if i == cands.len() - 1 {
        if !has_provider(cs, cands[i].0) {
            assert(m[m.len() - 1] == cands[i]);
        }
    } else {
        lemma_missing_candidates(cands.drop_last(), cs, i);
        if !has_provider(cs, cands[i].0) {
            let r = missing_candidates(cands.drop_last(), cs);
            let j = choose|j: int| 0 <= j < r.len() && r[j] == cands.drop_last()[i];
            assert(m[j] == r[j]);
        }
    }
}

/// Whether the embedded server keeps running after the active connection
/// changed: only while the embedded runtime is the one active. A local server
/// nothing talks to is stopped.
pub fn keeps_embedded_server(active: Option<&Connection>) -> (b: bool)
    ensures
        b == (active matches Some(c) && c.provider@ == "embedded"@),
{
    match active {
        Some(c) => str_eq(c.provider.as_str(), "embedded"),
        None => false,
    }
}

} // verus!
