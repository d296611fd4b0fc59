pub mod add_or_update_users;
pub mod add_service_principal;
pub mod add_user;
pub mod allocated_bucket;
pub mod c2c_sync_bucket;
pub mod reference_counts;
pub mod set_bucket_full;
pub mod update_user;
pub mod user;
pub mod update_user_id;
