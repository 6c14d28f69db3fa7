//! A turn-based dungeon-crawl simulation core.

pub mod arith;
pub mod components;
pub mod damage_system;
pub mod ecs;
pub mod fov;
pub mod gamelog;
pub mod gui;
pub mod inventory_system;
pub mod map;
pub mod map_indexing_system;
pub mod melee_combat_system;
pub mod monster_ai_system;
pub mod player;
pub mod rect;
pub mod render;
pub mod rng;
pub mod saveload_system;
pub mod spawner;
pub mod state;
pub mod targeting;
pub mod visibility_system;
pub mod world;

pub use components::{
    AreaOfEffect, BlocksTile, Color, CombatStats, Confusion, Consumable, Coord, EquipmentSlot,
    Equippable, Equipped, InBackpack, InflictsDamage, Item, Monster, Name, Player, Position,
    ProvidesHealing, Ranged, Renderable, SerializationHelper, SerializeMe, SufferDamage,
    Viewshed, WantsToDropItem, WantsToMelee, WantsToPickUpItem, WantsToRemoveEquipment,
    WantsToUseItem,
};
pub use damage_system::{delete_the_dead, DamageSystem};
pub use ecs::{Entities, Entity, Storage};
pub use gamelog::{GameLog, LogEntry};
pub use gui::{
    drop_item_menu, main_menu, ranged_target, remove_equipment_menu, show_inventory,
    GameOverResult, ItemMenuResult, MainMenuResult, MainMenuSelection, MenuKey,
};
pub use inventory_system::{
    EquipmentRemoveSystem, ItemBagSystem, ItemDropSystem, ItemUseSystem,
};
pub use map::{TileMap, TileType, MAPCOUNT, MAPHEIGHT, MAPWIDTH};
pub use melee_combat_system::MeleeCombatSystem;
pub use map_indexing_system::MapIndexingSystem;
pub use monster_ai_system::{Decision, MonsterAI, NavigationPath};
pub use player::{get_item, player_input, try_move_player, Command};
pub use rect::Rect;
pub use render::render_list;
pub use saveload_system::{load_game, save_game, LoadError, SaveData};
pub use state::{Input, Request, RunState, State};
pub use visibility_system::VisibilitySystem;
pub use world::{ComponentKind, World};
