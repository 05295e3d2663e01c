# imxrt-enet-qos

A driver for the ENET_QOS IP block available on some i.MXRT1170 MCUs, compatible with
smoltcp. Its decisions are verified with Verus.

- `src/` is the verified library. It holds the rings, the descriptors, the startup
  sequence, the MDIO bus and the packet tokens. Every operation returns the register and
  memory accesses that carry it out, and a sequencer steps through them.
- `app/` attaches the library to the peripheral and to smoltcp.
- `tests/` runs the library against a simulated device, and holds its register layout
  against `imxrt-ral`.

| Module           | What it holds                                              |
|------------------|------------------------------------------------------------|
| `register`       | registers, fields, and changing fields of a register       |
| `action`         | actions, accesses, and the sequencer                       |
| `descriptor`     | the words that software and the DMA controller exchange    |
| `ring`           | ring memory, and the software's place in it                |
| `initialize`     | bringing up the DMA controller, the MTL, the MAC and MDIO  |
| `driver`         | the driver, its startup, and its tokens                    |
| `capabilities`   | the types of smoltcp that describe a device                |
| `ring_laws`      | what holds of a ring over many operations                  |
| `startup_laws`   | what holds once the peripheral is up                       |
| `operation_laws` | what holds of the operations of a driver that is up        |

The laws that speak of a whole run leave open what a poll, a fetch or a reset finds in a
register. They take a modification to start from what the register was left with, and
memory to hold what was last stored.
