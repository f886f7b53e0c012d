pub mod agenda_laws;
pub mod arith;
pub mod board;
pub mod board_laws;
pub mod campaign_analysis;
pub mod campaign_facts;
pub mod campaign_laws;
pub mod campaign_pool;
pub mod campaign_pool_laws;
pub mod campaign_production;
pub mod campaign_production_laws;
pub mod campaign_requirements;
pub mod counter;
pub mod crossing;
pub mod damage;
pub mod emergency;
pub mod entity;
pub mod eta;
pub mod eta_laws;
pub mod grid;
pub mod island_campaign;
pub mod islands;
pub mod master_data;
pub mod mission_laws;
pub mod missions;
pub mod objectives;
pub mod occupants;
pub mod operation_assignment;
pub mod operations;
pub mod operations_laws;
pub mod order;
pub mod planner;
pub mod planner_laws;
pub mod production;
pub mod production_choice;
pub mod production_laws;
pub mod production_set;
pub mod production_survey;
pub mod pruning;
pub mod simulation;
pub mod snapshots;
pub mod squad;
pub mod transport_options;
pub mod travel;
pub mod unit_score;
pub mod unit_score_laws;
pub mod units;
