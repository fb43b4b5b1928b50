//! What each framework uses without importing it.
pub mod aiohttp;
pub mod alembic;
pub mod beanie;
pub mod celery;
pub mod click;
pub mod common;
pub mod django;
pub mod fastapi;
pub mod fastmcp;
pub mod flask;
pub mod marshmallow;
pub mod prefect;
pub mod pydantic;
pub mod pytest;
pub mod script;
pub mod sqlalchemy;
pub mod sqlmodel;
pub mod starlette;
