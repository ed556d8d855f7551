//! The search for the peripheral controller of the Raspberry Pi 5 on its bus.
use vstd::prelude::*;

verus! {

pub const RP1_VENDOR_ID: u16 = 0x1de4;

pub const RP1_DEVICE_ID: u16 = 0x0001;

pub const PCIE_STATUS: u64 = 0x4068;

#[derive(Clone, Copy, Debug, PartialEq, Eq, Structural)]
pub struct Rp1Info {
    pub controller: u64,
    pub link_up: bool,
    pub found: bool,
    pub vendor: u16,
    pub device: u16,
    pub bus: u8,
    pub slot: u8,
    pub function: u8,
    pub bar0: u64,
}

/// What the search waits for.
#[derive(Clone, Copy, Debug, PartialEq, Eq, Structural)]
pub enum ProbeStage {
    Start,
    Status,
    Identity,
    BarLow,
    BarHigh { low: u32 },
    Done,
}

/// What the search wants to read.
#[derive(Clone, Copy, Debug, PartialEq, Eq, Structural)]
pub enum ProbeRead {
    /// The state of the link.
    Status,
    /// A number of the device that an index selects.
    Config { index: u32, offset: u32 },
    Finished,
}

/// A search, as far as it has come.
#[derive(Clone, Copy, Debug, PartialEq, Eq, Structural)]
pub struct Probe {
    pub stage: ProbeStage,
    pub bus: u8,
    pub slot: u8,
    pub result: Rp1Info,
}

/// The index that selects a device.
pub open spec fn config_index(bus: u8, slot: u8) -> int {
    bus * 0x10_0000 + slot * 0x8000
}

/// Whether a number names the controller.
pub open spec fn is_rp1(identity: u32) -> bool {
    identity == 0x0001_1de4
}

/// The address that the lower half of a base register holds.
pub open spec fn bar_address(low: u32) -> int {
    low as int / 16 * 16
}

impl Probe {
    pub open spec fn wf(self) -> bool {
        1 <= self.bus <= 3 && self.slot < 32
    }

    pub open spec fn config(self, offset: u32) -> ProbeRead {
        ProbeRead::Config { index: config_index(self.bus, self.slot) as u32, offset }
    }

    /// The controller was found.
    pub open spec fn found(self, bar0: u64) -> (Probe, ProbeRead) {
        (
            Probe {
                stage: ProbeStage::Done,
                result: Rp1Info {
                    found: true,
                    vendor: RP1_VENDOR_ID,
                    device: RP1_DEVICE_ID,
                    bus: self.bus,
                    slot: self.slot,
                    bar0,
                    ..self.result
                },
                ..self
            },
            ProbeRead::Finished,
        )
    }

    /// The next device.
    pub open spec fn onward(self) -> (Probe, ProbeRead) {
        if self.slot < 31 {
            let next = Probe {
                stage: ProbeStage::Identity,
                slot: (self.slot + 1) as u8,
                ..self
            };
            (next, next.config(0))
        } else if self.bus < 3 {
            let next = Probe {
                stage: ProbeStage::Identity,
                slot: 0,
                bus: (self.bus + 1) as u8,
                ..self
            };
            (next, next.config(0))
        } else {
            (Probe { stage: ProbeStage::Done, ..self }, ProbeRead::Finished)
        }
    }

    /// What follows on what was read.
    pub open spec fn after(self, value: u32) -> (Probe, ProbeRead) {
        match self.stage {
            ProbeStage::Start => if self.result.controller == 0 {
                (Probe { stage: ProbeStage::Done, ..self }, ProbeRead::Finished)
            } else {
                (Probe { stage: ProbeStage::Status, ..self }, ProbeRead::Status)
            },
            ProbeStage::Status => {
                let next = Probe {
                    stage: ProbeStage::Identity,
                    result: Rp1Info {
                        link_up: value & 0x30 != 0,
                        ..self.result
                    },
                    ..self
                };
                (next, next.config(0))
            },
            ProbeStage::Identity => if is_rp1(value) {
                (Probe { stage: ProbeStage::BarLow, ..self }, self.config(0x10))
            } else {
                self.onward()
            },
            ProbeStage::BarLow => if value & 6 == 4 {
                (
                    Probe { stage: ProbeStage::BarHigh { low: value }, ..self },
                    self.config(0x14),
                )
            } else {
                self.found(bar_address(value) as u64)
            },
            ProbeStage::BarHigh { low } => self.found(
                (value * 0x1_0000_0000 + bar_address(low)) as u64,
            ),
            ProbeStage::Done => (self, ProbeRead::Finished),
        }
    }

    /// A search that has not begun, on a controller at an address; zero if there is none.
    pub fn new(controller: u64) -> (probe: Self)
        ensures
            probe.wf(),
            probe == (Probe {
                stage: ProbeStage::Start,
                bus: 1,
                slot: 0,
                result: Rp1Info {
                    controller,
                    link_up: false,
                    found: false,
                    vendor: u16::MAX,
                    device: u16::MAX,
                    bus: 0,
                    slot: 0,
                    function: 0,
                    bar0: 0,
                },
            }),
    {
        Probe {
            stage: ProbeStage::Start,
            bus: 1,
            slot: 0,
            result: Rp1Info {
                controller,
                link_up: false,
                found: false,
                vendor: u16::MAX,
                device: u16::MAX,
                bus: 0,
                slot: 0,
                function: 0,
                bar0: 0,
            },
        }
    }

    fn request(&self, offset: u32) -> (read: ProbeRead)
        requires
            self.wf(),
        ensures
            read == self.config(offset),
    {
        ProbeRead::Config {
            index: self.bus as u32 * 0x10_0000 + self.slot as u32 * 0x8000,
            offset,
        }
    }

    fn finish(&mut self, bar0: u64) -> (read: ProbeRead)
        requires
            old(self).wf(),
        ensures
            final(self).wf(),
            (*final(self), read) == old(self).found(bar0),
    {
        self.stage = ProbeStage::Done;
        self.result.found = true;
        self.result.vendor = RP1_VENDOR_ID;
        self.result.device = RP1_DEVICE_ID;
        self.result.bus = self.bus;
        self.result.slot = self.slot;
        self.result.bar0 = bar0;
        ProbeRead::Finished
    }

    fn advance(&mut self) -> (read: ProbeRead)
        requires
            old(self).wf(),
        ensures
            final(self).wf(),
            (*final(self), read) == old(self).onward(),
    {
        if self.slot < 31 {
            self.slot = self.slot + 1;
        } else if self.bus < 3 {
            self.slot = 0;
            self.bus = self.bus + 1;
        } else {
            self.stage = ProbeStage::Done;
            return ProbeRead::Finished;
        }
        self.stage = ProbeStage::Identity;
        self.request(0)
    }

    /// Takes what was read last (the first call takes anything) and says what to read next.
    pub fn probe(&mut self, value: u32) -> (read: ProbeRead)
        requires
            old(self).wf(),
        ensures
            final(self).wf(),
            (*final(self), read) == old(self).after(value),
    {
        match self.stage {
            ProbeStage::Start => {
                if self.result.controller == 0 {
                    self.stage = ProbeStage::Done;
                    ProbeRead::Finished
                } else {
                    self.stage = ProbeStage::Status;
                    ProbeRead::Status
                }
            },
            ProbeStage::Status => {
                self.result.link_up = value & 0x30 != 0;
                self.stage = ProbeStage::Identity;
                self.request(0)
            },
            ProbeStage::Identity => {
                if value == 0x0001_1de4 {
                    self.stage = ProbeStage::BarLow;
                    self.request(0x10)
                } else {
                    self.advance()
                }
            },
            ProbeStage::BarLow => {
                if value & 6 == 4 {
                    self.stage = ProbeStage::BarHigh { low: value };
                    self.request(0x14)
                } else {
                    self.finish((value / 16 * 16) as u64)
                }
            },
            ProbeStage::BarHigh { low } => {
                self.finish(value as u64 * 0x1_0000_0000 + (low / 16 * 16) as u64)
            },
            ProbeStage::Done => ProbeRead::Finished,
        }
    }

    pub fn info(&self) -> (info: Rp1Info)
        ensures
            info == self.result,
    {
        self.result
    }
}

} // verus!
