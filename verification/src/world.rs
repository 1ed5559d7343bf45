pub mod hit_record;
pub mod material;
pub mod scene_object;
pub mod scene_object_list;
