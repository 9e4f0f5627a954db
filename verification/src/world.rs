//! The world: configuration properties and the top-level engine state.

use vstd::prelude::*;

use crate::context::Context;
use crate::engine::Core;
use crate::node::NodeArena;
use crate::scene_manager::{spec_stack_push, spec_stack_replace, SceneManager};
use crate::scheduler::Scheduler;

verus! {

/// Window and view configuration. The view is a logical coordinate
/// space distinct from pixel space; its extents are fixed-point
/// thousandths.
pub struct WorldProperties {
    pub window_width: usize,
    pub window_height: usize,
    pub view_width: i64,
    pub view_height: i64,
    pub view_centered: bool,
    pub title: String,
    pub config: String,
    pub vysnc_enabled: bool,
    pub perform_clear: bool,
}

/// All fields of two property sets agree.
pub open spec fn props_eq(a: WorldProperties, b: WorldProperties) -> bool {
    &&& a.window_width == b.window_width
    &&& a.window_height == b.window_height
    &&& a.view_width == b.view_width
    &&& a.view_height == b.view_height
    &&& a.view_centered == b.view_centered
    &&& a.title@ == b.title@
    &&& a.config@ == b.config@
    &&& a.vysnc_enabled == b.vysnc_enabled
    &&& a.perform_clear == b.perform_clear
}

impl WorldProperties {
    pub fn new() -> (r: WorldProperties)
        ensures
            r.window_width == 0,
            r.window_height == 0,
            r.view_width == 0,
            r.view_height == 0,
            r.view_centered,
            r.title@ == Seq::<char>::empty(),
            r.config@ == "config.json"@,
            r.vysnc_enabled,
            r.perform_clear,
    {
        WorldProperties {
            window_width: 0,
            window_height: 0,
            view_width: 0,
            view_height: 0,
            view_centered: true,
            title: String::new(),
            config: "config.json".to_owned(),
            vysnc_enabled: true,
            perform_clear: true,
        }
    }

    /// A copy of another property set.
    pub fn from(wp: &WorldProperties) -> (r: WorldProperties)
        ensures
            props_eq(r, *wp),
    {
        WorldProperties {
            window_width: wp.window_width,
            window_height: wp.window_height,
            view_width: wp.view_width,
            view_height: wp.view_height,
            view_centered: wp.view_centered,
            title: wp.title.clone(),
            config: wp.config.clone(),
            vysnc_enabled: wp.vysnc_enabled,
            perform_clear: wp.perform_clear,
        }
    }

    /// Overwrite this property set with another.
    pub fn set(&mut self, wp: &WorldProperties)
        ensures
            props_eq(*final(self), *wp),
    {
        self.window_width = wp.window_width;
        self.window_height = wp.window_height;
        self.view_width = wp.view_width;
        self.view_height = wp.view_height;
        self.view_centered = wp.view_centered;
        self.title = wp.title.clone();
        self.config = wp.config.clone();
        self.vysnc_enabled = wp.vysnc_enabled;
        self.perform_clear = wp.perform_clear;
    }
}

/// The same configuration in the form the system container keeps it.
pub struct ConfigData {
    pub window_width: usize,
    pub window_height: usize,
    pub view_width: i64,
    pub view_height: i64,
    pub view_centered: bool,
    pub title: String,
    pub config: String,
    pub vysnc_enabled: bool,
    pub perform_clear: bool,
}

impl ConfigData {
    pub fn new() -> (r: ConfigData)
        ensures
            r.window_width == 0,
            r.window_height == 0,
            r.view_width == 0,
            r.view_height == 0,
            r.view_centered,
            r.title@ == Seq::<char>::empty(),
            r.config@ == "config.json"@,
            r.vysnc_enabled,
            r.perform_clear,
    {
        ConfigData {
            window_width: 0,
            window_height: 0,
            view_width: 0,
            view_height: 0,
            view_centered: true,
            title: String::new(),
            config: "config.json".to_owned(),
            vysnc_enabled: true,
            perform_clear: true,
        }
    }
}

/// The world hosts a game: it owns the node arena, the scheduler, the
/// scene manager and the core loop state, and assigns node ids. When
/// the last scene exits, the game ends.
pub struct World {
    pub properties: WorldProperties,
    pub core: Core,
    pub arena: NodeArena,
    pub scene_manager: SceneManager,
    pub scheduler: Scheduler,
    pub config: String,
    /// The world-scoped id counter behind `gen_id`.
    pub id: usize,
}

impl World {
    /// The arena is well formed and the scene stack points into it.
    pub open spec fn wf(self) -> bool {
        &&& self.arena.wf()
        &&& crate::node::wf_cache(self.arena.nodes@)
        &&& self.scene_manager.scenes.in_bounds(self.arena.nodes@.len() as int)
    }

    /// Build a world from its configuration. Window and view creation
    /// belong to the host backend; the world itself is pure state.
    pub fn new(
        window_width: u32,
        window_height: u32,
        view_width: i64,
        view_height: i64,
        view_centered: bool,
        title: &str,
        config: &str,
        vysnc_enabled: bool,
    ) -> (r: World)
        requires
            window_width < 0x4000_0000,
            window_height < 0x4000_0000,
        ensures
            r.wf(),
            r.properties.window_width == window_width,
            r.properties.window_height == window_height,
            r.properties.view_width == view_width,
            r.properties.view_height == view_height,
            r.properties.view_centered == view_centered,
            r.properties.title@ == title@,
            r.properties.vysnc_enabled == vysnc_enabled,
            r.config@ == config@,
            r.arena.nodes@.len() == 1,
            r.scene_manager.scenes.scenes@.len() == 0,
            r.scene_manager.scenes.next_scene == 0,
            r.scene_manager.scenes.running_scene == 0,
            r.scheduler.wf(),
            r.scheduler.system_targets@.len() == 0,
            r.scheduler.normal_targets@.len() == 0,
            r.core.lag == 0,
            r.core.update_period == crate::engine::SECOND_NS / crate::engine::UPDATES_PER_SECOND,
            r.id == 0,
    {
        let mut wp = WorldProperties::new();
        wp.window_width = window_width as usize;
        wp.window_height = window_height as usize;
        wp.view_width = view_width;
        wp.view_height = view_height;
        wp.view_centered = view_centered;
        wp.title = title.to_owned();
        wp.vysnc_enabled = vysnc_enabled;
        let mut scene_manager = SceneManager::new();
        scene_manager.initialize(&wp);
        let mut core = Core::new();
        core.initialize();
        World {
            properties: wp,
            core,
            arena: NodeArena::new(),
            scene_manager,
            scheduler: Scheduler::new(),
            config: config.to_owned(),
            id: 0,
        }
    }

    /// Mint the next world-scoped id: an explicit counter, so
    /// successive calls return strictly increasing, unique values.
    /// (Node ids are assigned separately, by the arena: a node's id is
    /// its index.)
    pub fn gen_id(&mut self) -> (r: usize)
        requires
            old(self).id < usize::MAX,
        ensures
            r == old(self).id + 1,
            *final(self) == (World { id: (old(self).id + 1) as usize, ..*old(self) }),
    {
        self.id = self.id + 1;
        self.id
    }

    /// Read the configuration. Parsing is deferred to an external
    /// loader; for now the configuration always reports success.
    pub fn configure(&mut self) -> (r: Result<String, String>)
        ensures
            *final(self) == *old(self),
            r matches Result::Ok(m) && m@ == "Configured"@,
    {
        Result::Ok("Configured".to_owned())
    }

    pub fn properties(&self) -> (r: &WorldProperties)
        ensures
            r == &self.properties,
    {
        &self.properties
    }

    pub fn get_scene_manager(&mut self) -> (r: &mut SceneManager)
        ensures
            *r == old(self).scene_manager,
            *final(self) == (World { scene_manager: *final(r), ..*old(self) }),
    {
        &mut self.scene_manager
    }

    /// Replace the running scene. Replacing with no running scene is a
    /// wiring error, excluded by precondition.
    pub fn replace_scene(&mut self, replacement: usize)
        requires
            old(self).scene_manager.scenes.running_scene != 0,
        ensures
            final(self).scene_manager.scenes.model() == spec_stack_replace(
                old(self).scene_manager.scenes.model(),
                replacement,
            ),
            *final(self) == (World { scene_manager: final(self).scene_manager, ..*old(self) }),
            final(self).scene_manager == (SceneManager {
                scenes: final(self).scene_manager.scenes,
                ..old(self).scene_manager
            }),
    {
        self.scene_manager.replace_scene(replacement);
    }

    /// Push a scene: it becomes the pending next scene.
    pub fn push_scene(&mut self, scene: usize)
        ensures
            final(self).scene_manager.scenes.model() == spec_stack_push(
                old(self).scene_manager.scenes.model(),
                scene,
            ),
            *final(self) == (World { scene_manager: final(self).scene_manager, ..*old(self) }),
            final(self).scene_manager == (SceneManager {
                scenes: final(self).scene_manager.scenes,
                ..old(self).scene_manager
            }),
    {
        self.scene_manager.push_scene(scene);
    }

    pub fn get_scheduler(&mut self) -> (r: &mut Scheduler)
        ensures
            *r == old(self).scheduler,
            *final(self) == (World { scheduler: *final(r), ..*old(self) }),
    {
        &mut self.scheduler
    }
}

/// The system container: the same subsystems keyed by the plain
/// configuration record.
pub struct SystemData {
    pub data: ConfigData,
    pub scene_manager: SceneManager,
    pub scheduler: Scheduler,
    pub context: Context,
    pub id: usize,
}

impl SystemData {
    pub fn new() -> (r: SystemData)
        ensures
            r.data.window_width == 0,
            r.id == 0,
            r.scheduler.system_targets@.len() == 0,
            r.scheduler.normal_targets@.len() == 0,
    {
        let data = ConfigData::new();
        let mut scene_manager = SceneManager::new();
        let wp = WorldProperties::new();
        scene_manager.initialize(&wp);
        SystemData {
            data,
            scene_manager,
            scheduler: Scheduler::new(),
            context: Context::new(),
            id: 0,
        }
    }

    pub fn initialize(&mut self)
        ensures
            *final(self) == *old(self),
    {
    }

    pub fn data(&self) -> (r: &ConfigData)
        ensures
            r == &self.data,
    {
        &self.data
    }

    pub fn data_mut(&mut self) -> (r: &mut ConfigData)
        ensures
            *r == old(self).data,
            *final(self) == (SystemData { data: *final(r), ..*old(self) }),
    {
        &mut self.data
    }

    pub fn context_mut(&mut self) -> (r: &mut Context)
        ensures
            *r == old(self).context,
            *final(self) == (SystemData { context: *final(r), ..*old(self) }),
    {
        &mut self.context
    }

    pub fn scene_manager(&self) -> (r: &SceneManager)
        ensures
            r == &self.scene_manager,
    {
        &self.scene_manager
    }

    pub fn scene_manager_mut(&mut self) -> (r: &mut SceneManager)
        ensures
            *r == old(self).scene_manager,
            *final(self) == (SystemData { scene_manager: *final(r), ..*old(self) }),
    {
        &mut self.scene_manager
    }

    pub fn scheduler_mut(&mut self) -> (r: &mut Scheduler)
        ensures
            *r == old(self).scheduler,
            *final(self) == (SystemData { scheduler: *final(r), ..*old(self) }),
    {
        &mut self.scheduler
    }

    /// The next process-unique node id.
    pub fn gen_id(&mut self) -> (r: usize)
        requires
            old(self).id < usize::MAX,
        ensures
            r == old(self).id + 1,
            *final(self) == (SystemData { id: (old(self).id + 1) as usize, ..*old(self) }),
    {
        self.id = self.id + 1;
        self.id
    }
}

} // verus!
