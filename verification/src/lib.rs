pub mod algebra;
pub mod codec;
pub mod midi;
pub mod packet;
pub mod point;
pub mod route;
pub mod sheet;
pub mod wire;

pub use algebra::TimedVec;
pub use codec::DecodeError;
pub use codec::DecodeIntoFlowwPackets;
pub use codec::Encodable;
pub use midi::midi_to_floww;
pub use midi::MidiData;
pub use midi::MidiEvent;
pub use packet::FlowwPacket;
pub use packet::IntoFlowwPacket;
pub use packet::IntoFlowwPackets;
pub use packet::PacketView;
pub use point::Floww;
pub use point::Point;
pub use point::Timed;
pub use route::unpacket;
pub use route::StreamDecoder;
pub use route::TrackMap;
pub use sheet::FlowwSheet;
