# vm_snapshot

Capture and restore of snapshots of a virtual machine. A snapshot is a directory
with a memory image and a state file of sections.

The library holds the decisions: which step comes next, what follows from what a
step brought, what is cleaned up and resumed after a failure, which message an
error carries, where guest memory stands in the image, what an image lacks since
the last one, and which sections the state file has. Verus checks each contract.
Whoever runs a capture or a restore asks for the next step, does it, and hands
back what came of it.

* `capture`, `capture_laws`: capture, and arming of the dirty tracking
* `tracking`, `tracking_laws`: what one capture leaves to the next, and that every
  image is complete
* `restore`, `restore_laws`, `device_laws`: restore
* `round_trip_laws`: that a restore gives back what a capture took
* `vcpu`: the exchange with the vCPU threads
* `ram`, `ram_laws`: the memory image
* `guest_memory`: the calls into `vm_memory`, with the contracts they are trusted
  to meet
* `sections`, `section_laws`: the state file, and where a snapshot is staged
* `host`, `error`, `inputs`, `text`: the types of the host, errors, what is known
  of the machine, numbers as text

The `*_laws` modules state what holds of every run, image and state file, each
under the conditions in its `requires`. `app/` does the steps: file system,
channels, devices and hypervisor.
