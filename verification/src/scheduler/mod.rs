//! The scheduling core: queue numbers, the queue model with its pile slots,
//! the dispatcher and the scheduler that ties them together.

pub mod charging_scheduler;
pub mod dispatcher;
pub mod number_generator;
pub mod pile_info;
pub mod queue_core;
pub mod queue_manager;
pub mod queue_model;
pub mod requests;
pub mod status;
pub mod time_system;

pub use self::charging_scheduler::{
    api_submit_request,
    ChargingRequestInput,
    ChargingRequestResponse,
    ChargingScheduler,
    SchedulerStatus,
};
pub use self::dispatcher::Dispatcher;
pub use self::number_generator::{generate_queue_number, NumberGenerator};
pub use self::pile_info::{PileInfo, PileSlot};
pub use self::queue_manager::{QueueManager, TickReport};
pub use self::queue_model::QueueModel;
pub use self::status::{
    ChargingRequestInfo,
    PileRealTimeStatus,
    PileStatusInfo,
    SystemRealTimeStatusForQueue,
    SystemStatus,
};
pub use self::time_system::TimeSystem;
